//! The commands, one module for each part of their work.
pub mod analyze;
pub mod analyze_laws;
pub mod download;
pub mod download_laws;
pub mod merge_laws;
pub mod overview;
pub mod overview_laws;
pub mod runs;
pub mod timeline;
pub mod timeline_laws;
pub mod timings;
pub mod timings_laws;
