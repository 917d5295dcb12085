//! Decides whether a locally installed cargo-style command should be
//! reinstalled or upgraded, and at what version.
//!
//! The library decodes the compact textual manifest of installed packages
//! into structured records and runs a version-resolution decision procedure
//! that compares the installed version against an optional ceiling and
//! against the versions a remote index reports.

pub mod engine;
pub mod manifest;
pub mod source;
pub mod text;
pub mod version;
