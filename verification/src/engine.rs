//! The state that a sound engine guards: the wave, and whether an output
//! device is bound. Every operation is a plain step on that
//! state; the caller holds the lock, opens and closes the device, and reports
//! back what came of it.
use crate::fixed::{clamp_freq, FREQ_DEFAULT};
use crate::node::{has_phase, is_insertion_point, strictly_increasing, SynthError, WaveNode};
use crate::playhead::{after_buffer, frame_at};
use crate::wave::{Wave, WaveModel};
use vstd::prelude::*;

verus! {

/// What an output device is opened with.
#[derive(Clone, Copy, Debug, PartialEq, Eq, Structural)]
pub struct DeviceParameters {
    /// Frames per second.
    pub sample_rate: usize,
    /// Samples per frame.
    pub channels_count: usize,
    /// Frames per buffer.
    pub channel_sample_count: usize,
}

/// Whether an output device is bound.
#[derive(Clone, Copy, Debug, PartialEq, Eq, Structural)]
pub enum DeviceState {
    /// No device is bound; buffers can still be rendered by hand.
    Uninitialized,
    /// A device is bound and asks for buffers.
    Active,
}

/// What happened that concerns the output device.
#[derive(Clone, Copy, Debug, PartialEq, Eq, Structural)]
pub enum DeviceEvent {
    /// A mouse button changed; `left` tells whether it was the left one,
    /// `pressed` whether it went down.
    MouseInput { left: bool, pressed: bool },
    /// The application asks for a device.
    BindRequested,
    /// The device that was asked for has been opened.
    Opened,
    /// The device that was asked for could not be opened.
    OpenFailed,
    /// The application asks to give the device up.
    UnbindRequested,
}

/// What the caller is to do with the output device.
#[derive(Clone, Copy, Debug, PartialEq, Eq, Structural)]
pub enum DeviceAction {
    /// Leave the device as it is.
    Nothing,
    /// Open a device with these parameters, then report `Opened` or `OpenFailed`.
    Open(DeviceParameters),
    /// Close the device.
    Close,
}

/// The parameters of the output device: stereo frames at 44100 Hz in buffers of
/// a tenth of a second.
pub open spec fn output_parameters() -> DeviceParameters {
    DeviceParameters { sample_rate: 44100, channels_count: 2, channel_sample_count: 4410 }
}

/// The device state after `event`.
pub open spec fn device_after(state: DeviceState, event: DeviceEvent) -> DeviceState {
    match event {
        DeviceEvent::Opened => DeviceState::Active,
        DeviceEvent::UnbindRequested => DeviceState::Uninitialized,
        _ => state,
    }
}

/// What `event` asks of the caller in `state`. A device is opened on request or
/// on a press of the left button, and only while none is bound; it is closed on
/// request, and only while one is bound. A failure to open is an error.
pub open spec fn device_response(state: DeviceState, event: DeviceEvent) -> Result<
    DeviceAction,
    SynthError,
> {
    match event {
        DeviceEvent::MouseInput { left, pressed } => if left && pressed && state
            == DeviceState::Uninitialized {
            Ok(DeviceAction::Open(output_parameters()))
        } else {
            Ok(DeviceAction::Nothing)
        },
        DeviceEvent::BindRequested => if state == DeviceState::Uninitialized {
            Ok(DeviceAction::Open(output_parameters()))
        } else {
            Ok(DeviceAction::Nothing)
        },
        DeviceEvent::Opened => Ok(DeviceAction::Nothing),
        DeviceEvent::OpenFailed => Err(SynthError::DeviceUnavailable),
        DeviceEvent::UnbindRequested => if state == DeviceState::Active {
            Ok(DeviceAction::Close)
        } else {
            Ok(DeviceAction::Nothing)
        },
    }
}

/// What the guarded state is, as plain mathematics.
pub struct AudioModel {
    /// The wave; it has no nodes until the first is added.
    pub wave: WaveModel,
    /// Whether an output device is bound.
    pub device: DeviceState,
}

impl AudioModel {
    /// The wave is well formed.
    pub open spec fn well_formed(self) -> bool {
        self.wave.well_formed()
    }

    /// The sample of frame `index` in a buffer of `bufsize` frames: silence
    /// unless the wave has two nodes or more.
    pub open spec fn frame_at(self, bufsize: nat, index: nat) -> int {
        if self.wave.nodes.len() >= 2 {
            frame_at(self.wave, bufsize, index)
        } else {
            0
        }
    }

    /// The state after a buffer of `bufsize` frames: a wave of two or more nodes
    /// has played on, anything less has stayed as it was.
    pub open spec fn after_buffer(self, bufsize: nat) -> AudioModel {
        if self.wave.nodes.len() >= 2 {
            AudioModel { wave: after_buffer(self.wave, bufsize), ..self }
        } else {
            self
        }
    }
}

/// The wave of a sound engine and the state of its output device.
pub struct AudioState {
    wave: Wave,
    device: DeviceState,
}

impl View for AudioState {
    type V = AudioModel;

    closed spec fn view(&self) -> AudioModel {
        AudioModel { wave: self.wave@, device: self.device }
    }
}

impl AudioState {
    /// A state with a wave without nodes, at the default frequency multiplier,
    /// and without a device.
    pub fn new() -> (state: AudioState)
        ensures
            state@ == (AudioModel {
                wave: WaveModel {
                    nodes: Seq::empty(),
                    cursor: 0,
                    progress: 0,
                    freq: FREQ_DEFAULT as nat,
                },
                device: DeviceState::Uninitialized,
            }),
            state@.well_formed(),
    {
        AudioState { wave: Wave::empty(), device: DeviceState::Uninitialized }
    }

    /// Whether an output device is bound.
    pub fn device_state(&self) -> (device: DeviceState)
        ensures
            device == self@.device,
    {
        self.device
    }

    /// Adds a control node in phase order and returns its index. A node at
    /// exactly the phase of a node of the wave is refused with `DuplicatePhase`,
    /// and nothing changes.
    pub fn add_node(&mut self, wave_pos: u32, amplitude: i32) -> (outcome: Result<
        usize,
        SynthError,
    >)
        requires
            old(self)@.well_formed(),
        ensures
            final(self)@.well_formed(),
            final(self)@ == (AudioModel {
                wave: old(self)@.wave.with_node(WaveNode { wave_pos, amplitude }),
                ..old(self)@
            }),
            strictly_increasing(final(self)@.wave.nodes),
            match outcome {
                Ok(index) => {
                    &&& !has_phase(old(self)@.wave.nodes, wave_pos)
                    &&& is_insertion_point(old(self)@.wave.nodes, wave_pos, index as int)
                    &&& final(self)@.wave.nodes == old(self)@.wave.nodes.insert(
                        index as int,
                        WaveNode { wave_pos, amplitude },
                    )
                },
                Err(error) => {
                    &&& error == SynthError::DuplicatePhase
                    &&& has_phase(old(self)@.wave.nodes, wave_pos)
                    &&& final(self)@ == old(self)@
                },
            },
    {
        self.wave.insert_node(WaveNode { wave_pos, amplitude })
    }

    /// Sets the frequency multiplier of the wave to the value nearest to
    /// `new_freq` within `[0, FREQ_MAX]`.
    pub fn set_frequency(&mut self, new_freq: i64)
        ensures
            final(self)@ == (AudioModel {
                wave: WaveModel { freq: clamp_freq(new_freq as int) as nat, ..old(self)@.wave },
                ..old(self)@
            }),
            old(self)@.well_formed() ==> final(self)@.well_formed(),
    {
        self.wave.set_freq(new_freq);
    }

    /// Moves the frequency multiplier of the wave by `delta` and brings it back
    /// into `[0, FREQ_MAX]`.
    pub fn set_new_freq_from_delta(&mut self, delta: i32)
        ensures
            final(self)@ == (AudioModel {
                wave: WaveModel {
                    freq: clamp_freq(old(self)@.wave.freq + delta) as nat,
                    ..old(self)@.wave
                },
                ..old(self)@
            }),
            old(self)@.well_formed() ==> final(self)@.well_formed(),
    {
        let curr_freq: i64 = self.wave.frequency() as i64;
        self.wave.set_freq(curr_freq + delta as i64);
    }

    /// Fills every frame of `buf`: with the next frames of the wave, or with
    /// silence while the wave has fewer than two nodes.
    pub fn render(&mut self, buf: &mut [(i32, i32)], params: DeviceParameters)
        requires
            old(self)@.well_formed(),
            params.channels_count == 2,
        ensures
            final(self)@.well_formed(),
            final(self)@ == old(self)@.after_buffer(old(buf)@.len()),
            final(buf)@.len() == old(buf)@.len(),
            forall|i: int|
                0 <= i < final(buf)@.len() ==> {
                    &&& (#[trigger] final(buf)@[i]).0 == old(self)@.frame_at(
                        old(buf)@.len(),
                        i as nat,
                    )
                    &&& final(buf)@[i].1 == final(buf)@[i].0
                },
    {
        self.wave.piecewise_linear(buf);
    }

    /// A copy of the control nodes in playing order.
    pub fn node_snapshot(&self) -> (nodes: Vec<WaveNode>)
        ensures
            nodes@ == self@.wave.nodes,
    {
        self.wave.nodes().clone()
    }

    /// Takes note of `event` and tells the caller what to do with the output
    /// device.
    pub fn handle_audio_maintenance_events(&mut self, event: DeviceEvent) -> (outcome: Result<
        DeviceAction,
        SynthError,
    >)
        ensures
            outcome == device_response(old(self)@.device, event),
            final(self)@ == (AudioModel {
                device: device_after(old(self)@.device, event),
                ..old(self)@
            }),
    {
        let outcome = match event {
            DeviceEvent::MouseInput { left, pressed } => {
                if left && pressed && self.device == DeviceState::Uninitialized {
                    Ok(DeviceAction::Open(Self::device_parameters()))
                } else {
                    Ok(DeviceAction::Nothing)
                }
            },
            DeviceEvent::BindRequested => {
                if self.device == DeviceState::Uninitialized {
                    Ok(DeviceAction::Open(Self::device_parameters()))
                } else {
                    Ok(DeviceAction::Nothing)
                }
            },
            DeviceEvent::Opened => {
                self.device = DeviceState::Active;
                Ok(DeviceAction::Nothing)
            },
            DeviceEvent::OpenFailed => Err(SynthError::DeviceUnavailable),
            DeviceEvent::UnbindRequested => {
                let bound = self.device == DeviceState::Active;
                self.device = DeviceState::Uninitialized;
                if bound {
                    Ok(DeviceAction::Close)
                } else {
                    Ok(DeviceAction::Nothing)
                }
            },
        };
        outcome
    }

    /// The parameters that the output device is opened with.
    pub fn device_parameters() -> (params: DeviceParameters)
        ensures
            params == output_parameters(),
    {
        DeviceParameters { sample_rate: 44100, channels_count: 2, channel_sample_count: 4410 }
    }
}

} // verus!
