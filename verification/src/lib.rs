//! Save-data backup and restore for a game-library manager.
//!
//! The crate covers the data-integrity-critical subsystem: packing a
//! directory tree of save files into a compressed archive, deriving backup
//! destinations per deployment mode (portable or standard) with a
//! process-lifetime path cache, generic move/delete helpers, and per-game
//! play-statistics rollups persisted as a JSON payload.
//!
//! All filesystem and database reads happen outside this crate; callers
//! observe the world (does the source exist? what does the settings row
//! hold?) and pass plain values in. Every decision and every byte produced
//! is specified and verified here; the 7z encoding itself and calendar
//! rendering are delegated to outside crates behind trusted contracts.

pub mod errors;
pub mod numfmt;
pub mod textutil;
pub mod archive;
pub mod backup;
pub mod paths;
pub mod fsops;
pub mod stats_json;
pub mod stats;
