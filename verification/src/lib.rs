//! The decisions of `mnemosctl`, a command line client for a memory service:
//! what it is configured to do, which requests it sends, what the answers mean,
//! and how it synchronizes and imports memories.
//!
//! Nothing here reads a file, a socket or the clock. The program around the
//! library does, and hands over plain values.
pub mod codec;
pub mod config;
pub mod fields;
pub mod hash;
pub mod import;
pub mod json;
pub mod ledger;
pub mod mock;
pub mod peers;
pub mod progress;
pub mod request;
pub mod sync;
pub mod text;

pub use codec::pretty_json;
pub use config::Config;
pub use import::{import_jsonl, import_jsonl_with_options, ImportOptions, ImportResult};
pub use json::Json;
pub use peers::format_peers;
pub use request::{create_memory, get_memory, health, list_peers, search_memories};
pub use sync::{sync_from_host, sync_from_host_with_options, SyncOptions, SyncResult};
