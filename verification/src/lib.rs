//! Client-side logic for fetching packages from authenticated private
//! registries into the host package manager's cache: registry location and
//! cache-path derivation, index record parsing, version resolution, and the
//! download/persist/validate protocol.

pub mod args;
pub mod config;
pub mod download;
pub mod errors;
pub mod header;
pub mod package_entry;
pub mod registry;
pub mod resolver;
pub mod text;
pub mod version;
