//! Command-line argument shapes for the pronunciation session utility.
//! Parsing itself happens in the embedding program; the validation rules
//! live here.

use vstd::prelude::*;

use crate::audio::capture::LatencyRange;
use crate::pronunciation::PronunciationError;

verus! {

/// Top-level command line.
#[derive(Debug)]
pub struct Cli {
    pub command: Command,
}

/// The available subcommands.
#[derive(Debug)]
pub enum Command {
    /// Launch the interactive pronunciation session UI.
    Session(SessionArgs),
}

/// Capture-related arguments.
#[derive(Debug, Clone)]
pub struct CaptureArgs {
    /// Optional input device name.
    pub device: Option<String>,
    /// Minimum latency in milliseconds for capture buffering.
    pub latency_min: Option<u32>,
    /// Maximum latency in milliseconds for capture buffering.
    pub latency_max: Option<u32>,
    /// Target sample rate for capture/playback.
    pub sample_rate: u32,
}

impl CaptureArgs {
    /// The capture latency window: both bounds must be given together,
    /// the minimum positive and not above the maximum; neither given
    /// falls back to 100..=200 ms.
    pub fn latency_range(&self) -> (res: Result<LatencyRange, PronunciationError>)
        ensures
            res is Ok <==> match (self.latency_min, self.latency_max) {
                (Some(min), Some(max)) => min > 0 && max >= min,
                (Option::None, Option::None) => true,
                _ => false,
            },
            res matches Ok(range) ==> range == match (self.latency_min, self.latency_max) {
                (Some(min), Some(max)) => LatencyRange { min, max },
                _ => LatencyRange { min: 100, max: 200 },
            },
    {
        match (self.latency_min, self.latency_max) {
            (Some(min), Some(max)) => {
                if min == 0 {
                    return Err(PronunciationError::new("latency_min must be positive"));
                }
                if max < min {
                    return Err(PronunciationError::new("latency_max must be >= latency_min"));
                }
                Ok(LatencyRange { min, max })
            },
            (None, None) => Ok(LatencyRange { min: 100, max: 200 }),
            _ => Err(PronunciationError::new(
                "provide both latency-min and latency-max or neither",
            )),
        }
    }
}

/// Arguments shared by pipelines that consume a reference recording.
#[derive(Debug, Clone)]
pub struct PipelineArgs {
    /// Path to the reference pronunciation WAV file.
    pub reference: String,
    pub capture: CaptureArgs,
    /// Optional override for the assets directory.
    pub assets_path: Option<String>,
    /// Maximum acceptable capture-to-feedback latency in milliseconds.
    pub latency_budget_ms: u32,
}

/// Arguments of the session subcommand.
#[derive(Debug, Clone)]
pub struct SessionArgs {
    pub pipeline: PipelineArgs,
}

} // verus!
