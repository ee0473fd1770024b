//! The audio side's decisions: which device sits where, when a stream counts
//! as stalled, what the machine granted, and what to do when a card dies.

pub mod assembler;
pub mod backend;
pub mod bay;
pub mod disassembler;
pub mod duplex;
pub mod listing;
pub mod operations;
pub mod plugs;
pub mod probe;
pub mod pulse;
pub mod realtime;
pub mod stall;
pub mod streams;
