//! Verified core of a vault synchronisation daemon.
//!
//! The crate decides; its callers perform. Every module turns plain values
//! (paths, bytes, hashes, clock readings) into decisions and new states, and
//! states in its contracts exactly which decision comes out of which input.
//! Files, sockets, clocks and threads stay with the caller.

pub mod base_seq_store;
pub mod conflict_breaker;
pub mod digest;
pub mod frontmatter;
pub mod journal_laws;
pub mod json;
pub mod materializer;
pub mod materializer_laws;
pub mod note_laws;
pub mod numbers;
pub mod obsidian_install_detect;
pub mod obsidian_plugin_detect;
pub mod pairing;
pub mod path_map;
pub mod paths;
pub mod persist;
pub mod pull_backfill;
pub mod push_client;
pub mod push_journal;
pub mod push_laws;
pub mod push_rate_limit;
pub mod rasp_fence;
pub mod read_receipt;
pub mod reconciliation;
pub mod redflag;
pub mod retry_ledger;
pub mod scope;
pub mod sliding_window;
pub mod sse;
pub mod stores;
pub mod sync_health;
pub mod sync_shadow;
pub mod text;
pub mod tray_state;
