//! Live CPU/GPU temperature telemetry: parsing a vendor sensor log, keeping a
//! bounded history, and deciding what to publish and send to a display device.

pub mod columns;
pub mod discover;
pub mod error;
pub mod measurement;
pub mod names;
pub mod numbers;
pub mod series;
pub mod slot;
pub mod snapshot;
pub mod supervisor;
pub mod tailer;
pub mod text;
pub mod transport;
