//! The failures that the telemetry pipeline distinguishes.

use vstd::prelude::*;

verus! {

/// Why a step of the pipeline gave up.
#[derive(Debug, Clone, Copy, PartialEq, Eq, Structural)]
pub enum TelemetryError {
    /// The log directory holds no file, or cannot be listed.
    NoLogFile,
    /// A field that should hold a number does not, or a line lacks the field.
    MalformedField,
    /// A field holds a measurement of another kind than the one asked for.
    TypeMismatch,
    /// Reading the log or writing to the device failed.
    IoFailure,
    /// Nobody receives the snapshots any more.
    ConsumerGone,
}

} // verus!
