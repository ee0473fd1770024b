//! The engine's side of the console: where channels sit in its frames, the
//! compiled plan of a document, and the traffic between the control side and
//! the audio thread.

pub mod call;
pub mod compiled;
pub mod controls;
pub mod dispatch;
pub mod engine;
pub mod frame;
pub mod hearing;
pub mod instrument;
pub mod lanes;
pub mod layout;
pub mod line;
pub mod listening;
pub mod meter;
pub mod mixdown;
pub mod operations;
pub mod orders;
pub mod outbox;
pub mod paths;
pub mod playback;
pub mod record;
pub mod ring;
pub mod rings;
pub mod settings;
pub mod slots;
pub mod soundfont;
pub mod taps;
pub mod voices;
