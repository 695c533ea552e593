//! A wavetable synthesis core in fixed-point arithmetic.
//!
//! A [`wave::Wave`] keeps control nodes ordered around a cyclic phase domain and
//! fills buffers of stereo frames by walking the segments between neighbouring
//! nodes and interpolating linearly. Every quantity is an integer in a fixed
//! format (see [`fixed`]), so that each frame is an exact function of the nodes,
//! the playback state and the buffer length.
pub mod engine;
pub mod fixed;
pub mod interval;
pub mod laws;
pub mod node;
pub mod playhead;
pub mod wave;
