//! Capture configuration and the arithmetic that sizes capture buffers.

use vstd::prelude::*;

verus! {

pub const DEFAULT_SAMPLE_RATE: u32 = 16_000;

/// An inclusive window of acceptable latencies, in milliseconds.
#[derive(Debug, Clone, Copy, PartialEq, Eq, Structural)]
pub struct LatencyRange {
    pub min: u32,
    pub max: u32,
}

/// Capture configuration shared across workflows. Latency bounds are in
/// milliseconds; `duration_ms` is the requested recording length.
#[derive(Debug, Clone)]
pub struct CaptureConfig {
    pub device_name: Option<String>,
    pub sample_rate: u32,
    pub latency_ms: LatencyRange,
    pub duration_ms: u64,
}

impl CaptureConfig {
    pub fn new(duration_ms: u64) -> (r: CaptureConfig)
        ensures
            r.device_name is None,
            r.sample_rate == DEFAULT_SAMPLE_RATE,
            r.latency_ms == (LatencyRange { min: 100, max: 200 }),
            r.duration_ms == duration_ms,
    {
        CaptureConfig {
            device_name: None,
            sample_rate: DEFAULT_SAMPLE_RATE,
            latency_ms: default_latency_range(),
            duration_ms,
        }
    }
}

/// The latency window assumed when the caller does not override it.
pub fn default_latency_range() -> (r: LatencyRange)
    ensures
        r == (LatencyRange { min: 100, max: 200 }),
{
    LatencyRange { min: 100, max: 200 }
}

/// Number of capture frames needed to cover `duration_ms` at `sample_rate`,
/// rounded up to whole frames.
pub fn frames_for_duration(duration_ms: u64, sample_rate: u32) -> (r: u64)
    requires
        duration_ms <= 0x3FFF_FFFF,
    ensures
        r == (duration_ms * sample_rate + 999) / 1000,
{
    proof {
        assert(duration_ms * (sample_rate as int) <= 0x3FFF_FFFF * 0x1_0000_0000)
            by (nonlinear_arith)
            requires
                0 <= duration_ms <= 0x3FFF_FFFF,
                0 <= (sample_rate as int) < 0x1_0000_0000;
    }
    (duration_ms * (sample_rate as u64) + 999) / 1000
}

/// Capacity of the bounded chunk channel between the audio callback and the
/// engine: roughly one slot per 1024 frames of the largest tolerated
/// latency, but never fewer than two.
pub fn channel_capacity(sample_rate: u32, latency_ms: &LatencyRange) -> (r: usize)
    ensures
        r == channel_capacity_spec(sample_rate, *latency_ms),
        2 <= r,
{
    let max_latency: u32 = if latency_ms.max >= latency_ms.min {
        latency_ms.max
    } else {
        latency_ms.min
    };
    proof {
        assert((sample_rate as int) * (max_latency as int) < 0x1_0000_0000
            * 0x1_0000_0000) by (nonlinear_arith)
            requires
                0 <= (sample_rate as int) < 0x1_0000_0000,
                0 <= (max_latency as int) < 0x1_0000_0000;
    }
    let frames: u64 = ((sample_rate as u64) * (max_latency as u64)) / 1000;
    let approx_chunks: u64 = if frames / 1024 >= 2 {
        frames / 1024
    } else {
        2
    };
    let capped: u64 = if approx_chunks <= 0xFFFF_FFFF {
        approx_chunks
    } else {
        0xFFFF_FFFF
    };
    capped as usize
}

/// What `channel_capacity` computes, as a mathematical function. The
/// capacity is capped so it fits a `usize` on every machine.
pub open spec fn channel_capacity_spec(sample_rate: u32, latency_ms: LatencyRange) -> int {
    let max_latency = if latency_ms.max >= latency_ms.min {
        latency_ms.max
    } else {
        latency_ms.min
    };
    let frames = (sample_rate * max_latency) / 1000;
    let chunks = if frames / 1024 >= 2 {
        frames / 1024
    } else {
        2int
    };
    if chunks <= 0xFFFF_FFFF {
        chunks
    } else {
        0xFFFF_FFFF
    }
}

} // verus!
