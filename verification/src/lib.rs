//! kei: iCloud Photos sync engine.
use vstd::prelude::*;

pub mod album;
pub mod asset;
pub mod cloudkit;
pub mod dates;
pub mod delta;
pub mod disk;
pub mod enc;
pub mod error;
pub mod exit;
pub mod fetch;
pub mod json;
pub mod library;
pub mod lookup;
pub mod metadata;
pub mod migration;
pub mod notifications;
pub mod password;
pub mod paths;
pub mod pid_file;
pub mod plan;
pub mod queries;
pub mod redact;
pub mod secret;
pub mod service;
pub mod session;
pub mod smart_folders;
pub mod startup;
pub mod tables;
pub mod text;
pub mod tokens;
pub mod types;
pub mod versions;

verus! {
}
