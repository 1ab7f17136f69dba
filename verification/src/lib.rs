//! Gaming-first arbitration of one GPU between games and managed tenants.

pub mod addr;
pub mod cgroup;
pub mod civil;
pub mod classify;
pub mod cli;
pub mod config;
pub mod debounce;
pub mod endings;
pub mod eviction;
pub mod gpu;
pub mod http;
pub mod json;
pub mod ladder;
pub mod metrics;
pub mod names;
pub mod numerals;
pub mod observe;
pub mod ollama;
pub mod pass;
pub mod presence;
pub mod procmon;
pub mod reconcile;
pub mod runs;
pub mod scan;
pub mod state;
pub mod text;
pub mod toml_tree;
pub mod tray;
pub mod units;
