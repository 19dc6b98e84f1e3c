//! The speech-to-text server: configuration, the model's lifecycle, and what a
//! session does with audio.
//!
//! Recognition is behind a pair of traits, with a deterministic stand-in, so
//! that everything above it runs on a machine with no GPU.

pub mod asr;
pub mod config;
pub mod gpu;
pub mod lifecycle;
pub mod mock;
pub mod session;
