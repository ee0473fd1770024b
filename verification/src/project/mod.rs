//! Sessions on disk: takes, their notes, their waveforms.

pub mod contents;
pub mod flac;
pub mod format;
pub mod headers;
pub mod midi;
pub mod naming;
pub mod notes;
pub mod operations;
pub mod order;
pub mod peaks;
pub mod reader;
pub mod session;
pub mod sessions;
pub mod sidecar;
pub mod takes;
pub mod wire;
pub mod writer;
