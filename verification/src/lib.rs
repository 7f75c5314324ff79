//! Token hardening for a chat client: detection of token stealers, token
//! obfuscation and encrypted token storage, with verified contracts.

pub mod text;
pub mod linux_hooks;
pub mod utils;
pub mod crypto;
pub mod config;
pub mod memory_guard;
pub mod process_monitor;
pub mod file_monitor;
pub mod token_vault;
pub mod shield;
