//! Log-line observation and emphasis library.
//!
//! The crate tracks a growing text file through an explicit tail-position
//! state machine, extracts structured fields from web-access-log lines,
//! classifies tokens of free-form lines for visual emphasis, and manages
//! named, versioned format parsers through a registry with semantic-version
//! compatibility checking and a filesystem discovery convention.

pub mod clf;
pub mod discovery;
pub mod highlight;
pub mod plugin;
pub mod registry;
pub mod render;
pub mod style;
pub mod tailer;
pub mod text;
pub mod version;
