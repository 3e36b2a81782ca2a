//! Supervision of a sidecar server process on behalf of a desktop shell:
//! where its data lives, how its configuration is seeded and repaired, which
//! binary is launched, how much storage its downloads use, and when the
//! process is started and stopped.
//!
//! The functions here decide and compute on plain values. The surrounding
//! application reads files, launches and signals processes, and hands what
//! it found to them; only the user's directories are asked of the platform
//! here.

pub mod binary;
pub mod conf;
pub mod paths;
pub mod storage;
pub mod supervisor;
pub mod text;

pub use binary::resolve_server_binary;
pub use conf::{patch_conf_key, seed_server_conf};
pub use paths::{resolve_downloads_path, suwayomi_data_dir};
pub use storage::{get_storage_info, StorageInfo};
pub use supervisor::{kill_tachidesk, ServerState};
