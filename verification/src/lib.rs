//! Telemetry ingestion and session segmentation for a CanSat ground station.
//!
//! A sensor probe emits one tab-separated line of telemetry per sample. This
//! crate decodes each line into a typed record, groups consecutive records
//! into sessions (a new session begins whenever the probe's sequence counter
//! resets), and keeps the resulting store ready for read-only consumers.
//! Fields that the probe reports as floating point are carried as their raw
//! token text, validated against the floating-point grammar, so that decoding
//! stays a pure, fully specified function of the input text; consumers parse
//! those tokens into floating-point values at the edge.

pub mod decode;
pub mod encode;
pub mod float_text;
pub mod mission;
pub mod num;
pub mod pipeline;
pub mod record;
pub mod stats;
pub mod text;
