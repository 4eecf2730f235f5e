//! Shared plain data types for the audio-processing pipeline.

use vstd::prelude::*;

verus! {

/// Granularity of a transcript segment.
#[derive(Debug, Clone, Copy, PartialEq, Eq, Structural)]
pub enum Granularity {
    Word,
    Sentence,
}

} // verus!
