//! The logic of the Kopeysk tape-deck music player: what its buttons do, how
//! its playback worker decides what to play, how a sample stream is cut into
//! blocks for the meters, and what its panels say.

pub mod dsp;
pub mod equalizer;
pub mod meters;
pub mod panel;
pub mod player;
pub mod position;
pub mod settings;
pub mod single;
pub mod text;
pub mod tracks;
pub mod worker;
