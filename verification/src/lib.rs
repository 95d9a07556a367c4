//! Verified core of a shell-history secret scanner.
//!
//! The library loads a registry of sensitive-text patterns, parses a shell's
//! history into uniform entries, detects pattern matches and extracts the
//! captured secrets, masks those secrets in place, and serializes the
//! surviving entries back into the shell's on-disk format.  All of that logic
//! is verified; reading and writing the actual files is left to the callers.

pub mod clearer;
pub mod config;
pub mod data;
pub mod emoji;
pub mod engine;
pub mod exporter;
pub mod masker;
pub mod shell;
pub mod state;
pub mod textutil;

pub use emoji::Emojis;
pub use state::ShellContext;
