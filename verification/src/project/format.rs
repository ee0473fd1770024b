//! Recording formats: which container, at which depth.

use vstd::prelude::*;

verus! {

/// What the take writer puts on disk. The depth is part of the variant, so that
/// combinations that do not exist cannot be named.
#[derive(Debug, Clone, Copy, PartialEq, Eq, Structural)]
pub enum RecordFormat {
    Wav16,
    Wav24,
    Wav32Float,
    Flac16,
    Flac24,
}

impl Default for RecordFormat {
    fn default() -> (format: RecordFormat)
        ensures
            format == RecordFormat::Wav32Float,
    {
        RecordFormat::Wav32Float
    }
}

impl RecordFormat {
    /// Whether the container is FLAC; it is WAV otherwise.
    pub open spec fn flac(self) -> bool {
        self == RecordFormat::Flac16 || self == RecordFormat::Flac24
    }

    /// The depth of a sample.
    pub open spec fn depth(self) -> u16 {
        match self {
            RecordFormat::Wav16 | RecordFormat::Flac16 => 16,
            RecordFormat::Wav24 | RecordFormat::Flac24 => 24,
            RecordFormat::Wav32Float => 32,
        }
    }

    /// What the names of its files end with.
    pub fn extension(self) -> (ext: &'static str)
        ensures
            ext@ == if self.flac() {
                "flac"@
            } else {
                "wav"@
            },
    {
        match self {
            RecordFormat::Wav16 | RecordFormat::Wav24 | RecordFormat::Wav32Float => "wav",
            RecordFormat::Flac16 | RecordFormat::Flac24 => "flac",
        }
    }

    /// The depth of a sample.
    pub fn bits_per_sample(self) -> (bits: u16)
        ensures
            bits == self.depth(),
    {
        match self {
            RecordFormat::Wav16 | RecordFormat::Flac16 => 16,
            RecordFormat::Wav24 | RecordFormat::Flac24 => 24,
            RecordFormat::Wav32Float => 32,
        }
    }

    /// Whether samples are stored as they are, without quantizing.
    pub fn is_float(self) -> (float: bool)
        ensures
            float == (self == RecordFormat::Wav32Float),
    {
        matches!(self, RecordFormat::Wav32Float)
    }

    /// Whether the container is FLAC.
    pub fn is_flac(self) -> (flac: bool)
        ensures
            flac == self.flac(),
    {
        matches!(self, RecordFormat::Flac16 | RecordFormat::Flac24)
    }
}

} // verus!
