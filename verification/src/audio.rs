//! Audio plumbing that is pure computation: capture buffer sizing and
//! sample-rate conversion. Device access itself lives outside this crate.

pub mod capture;
pub mod resample;
