//! The verified core of a small live-mixing console.

pub mod seqs;
pub mod text;
pub mod json;
pub mod single;
pub mod audio;
pub mod bytes;
pub mod console;
pub mod engine;
pub mod project;
