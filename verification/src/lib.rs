//! Host identity resolution for a monitoring agent.
//!
//! The crate extracts single values out of delimiter-separated
//! `key=value` text (such as a kernel command line), and assembles an
//! immutable identity record (collection level, platform, OS version)
//! from a requested level and the outcomes of two file lookups.

pub mod cmdline;
pub mod data_map;
pub mod error;
pub mod identity;
pub mod text;
