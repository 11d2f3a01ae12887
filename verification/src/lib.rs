//! The logic of a small desktop sampler: the recording and its multi-resolution
//! peak cache, the capture and playback rules, the waveform outline, the session
//! state behind the window, and WAV export.
//!
//! Audio samples are carried as the bit patterns of IEEE 754 values (see
//! [`sample`]), so every rule here is integer logic with a proved contract.

pub mod audio;
pub mod clock;
pub mod engine;
pub mod meter;
pub mod path;
pub mod peaks;
pub mod position;
pub mod rounding;
pub mod sample;
pub mod save;
pub mod selection;
pub mod session;
pub mod text;
pub mod view;
pub mod wav;
pub mod waveform;
pub mod zoom;
