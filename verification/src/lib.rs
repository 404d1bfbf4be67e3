//! LAST: a portable, Scoop-compatible package manager for Windows.
//!
//! This crate holds the package manager's logic: manifest resolution,
//! hash specifications, configuration, bucket lookup, shim and persist
//! planning, mirroring, uninstall steps and script dispatch. The work on
//! the filesystem, the network and the console is left to the `last`
//! program, which calls into this crate for every decision.

pub mod bucket;
pub mod cli;
pub mod clock;
pub mod config;
pub mod download;
pub mod dup;
pub mod error;
pub mod export;
pub mod extract;
pub mod hash;
pub mod install;
pub mod json;
pub mod log;
pub mod manifest;
pub mod migrate;
pub mod mirror;
pub mod path;
pub mod persist;
pub mod script;
pub mod shim;
pub mod text;
pub mod ui;
