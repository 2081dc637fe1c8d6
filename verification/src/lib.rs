//! Merged live tail of systemd journals across ssh hosts: the verified core.

pub mod cli;
pub mod filter;
pub mod merge;
pub mod numbers;
pub mod record;
pub mod render;
pub mod skew;
pub mod ssh;
pub mod strings;
pub mod tail;
