//! Pets: finding out what can be installed, installing it, and keeping track of it.

pub mod archive;
pub mod bundle;
pub mod download;
pub mod install;
pub mod job;
pub mod manifest;
pub mod state;
pub mod sync;
