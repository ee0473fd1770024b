//! The console document: strips, buses, effects, instruments and patches,
//! the commands that change it, and the signal graph it describes.

pub mod bus;
pub mod change;
pub mod command;
pub mod db;
pub mod desk;
pub mod edges;
pub mod eq;
pub mod fx;
pub mod graph;
pub mod id;
pub mod ids;
pub mod instrument;
pub mod laws;
pub mod meter;
pub mod mix;
pub mod operations;
pub mod output;
pub mod parse;
pub mod readback;
pub mod reduce;
pub mod strip;
