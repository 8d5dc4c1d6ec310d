//! Learned-frequency analysis of CI build logs.
//!
//! The crate ingests build logs, learns a statistical model of ordinary
//! (successful-build) log text, and extracts the fragments of a failing log
//! that are most likely to explain the failure.  The pipeline is:
//! raw bytes -> [`sanitize`] -> sanitized lines -> [`index`] (encoding and
//! frequency counts) -> per-line novelty score -> [`extract`] (a streaming
//! state machine) -> ordered blocks of line references.

pub mod ci;
pub mod extract;
pub mod github;
pub mod index;
pub mod log_variables;
pub mod queue;
pub mod recent;
pub mod sanitize;
pub mod travis;

pub use self::index::Index;
