//! A speech-capture backend core: audio normalization, exact sample
//! accumulation into fixed-size inference windows, wake-word-gated
//! transcription orchestration, and a deterministic message codec for
//! crossing the native/host boundary.
//!
//! The platform microphone, the speech-to-text engine and the host
//! notification mechanism are external collaborators; this crate holds the
//! logic between them, with machine-checked contracts.

pub mod accumulate;
pub mod api;
pub mod buffers;
pub mod codec;
pub mod context;
pub mod errors;
pub mod messages;
pub mod normalize;
pub mod orchestrator;
pub mod port;
pub mod text;
pub mod wake;
