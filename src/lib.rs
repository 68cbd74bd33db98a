//! Renders chords into mono PCM audio framed in a RIFF/WAVE container.
//!
//! The library holds the parts with exact integer behaviour: note tokens,
//! chord strings, sample quantization and encoding, the container header with
//! its back-patched size fields, and the fan-in protocol of the concurrent mixer.

pub mod note;
pub mod chord;
pub mod pcm;
pub mod container;
pub mod fan_in;
