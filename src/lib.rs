//! Builds a manifest that maps each (engine, version, architecture, operating
//! system) combination to the download URL and content hash of its release
//! artifact.
pub mod artifact_url;
pub mod digest;
pub mod error;
pub mod extract;
pub mod manifest;
pub mod model;
pub mod packages;
pub mod schedule;
pub mod versions;
