//! Ingestion-to-summary pipeline for archived legislative video streams:
//! candidate selection, media acquisition planning, transcript cleaning,
//! adaptive summarization with rate-limit aware retries, and persistence
//! planning with per-item failure reporting.

pub mod cleaner;
pub mod media;
pub mod prompt;
pub mod relative_time;
pub mod retry;
pub mod selector;
pub mod store;
pub mod sliding_window;
pub mod stream;
pub mod summary;
pub mod text;
pub mod vtt;
pub mod ytdlp;
