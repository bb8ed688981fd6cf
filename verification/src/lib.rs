//! Core of a streaming oscilloscope: sample storage, triggering, windowing,
//! measurements and CSV handling, with the behaviour of each operation stated
//! in its contract.

pub mod channel;
pub mod ring_buffer;
pub mod sample;
pub mod trigger;
pub mod measure;
pub mod text;
pub mod input;
pub mod timebase;
pub mod export;
pub mod math;
