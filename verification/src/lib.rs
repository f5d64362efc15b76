//! Decoder for a framed binary telemetry log and a timestamp-gated
//! configuration writer.
//!
//! The library reconstructs, per named signal, a chronological series of
//! typed values from a self-describing binary container, exposing them
//! through a generic (JSON-like) value model, and provides a monotonic
//! admission gate that lets one writer safely overwrite a shared
//! configuration artifact while rejecting stale or duplicate writes.

pub mod gate;
pub mod reader;
pub mod remap;
pub mod series;
pub mod value;
pub mod wire;
