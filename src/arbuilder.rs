//! Builders that accumulate object files and pack them into an archive.

pub mod common;
pub mod mac;
