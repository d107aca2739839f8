//! Loading of Codex token usage: which session logs are read, in which order their events are
//! put together, and which of the events are copies of one another.

mod compact;
pub mod dedupe;
pub mod event;
mod fingerprint;
mod index;
pub mod key;
pub mod laws;
pub mod loader;
pub mod reading;
pub mod schedule;
pub mod sources;
pub mod tier;

pub use dedupe::dedupe_codex_events;
pub use event::CodexTokenUsageEvent;
pub use loader::{
    combine_readings, load_codex_events, load_codex_events_from_directory,
    load_codex_events_from_sources, load_codex_events_inner, CodexLogAccess, SharedArgs,
};
pub use reading::{
    merge_loaded_files, read_codex_session_chunk, read_codex_session_file,
    read_codex_session_files_in_order, read_codex_session_files_parallel, LoadedFile, SessionVisit,
};
pub use schedule::{chunk_file_indexes_by_size, worker_count};
pub use sources::{
    collect_deduped_codex_usage_files, CodexUsageGroup, CodexUsageSource, SessionFile,
};
pub use tier::{merge_codex_service_tiers, CodexServiceTier};
