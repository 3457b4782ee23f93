//! Verified core of an Android OTA payload dumper: the ZIP container
//! locator, the payload header reader, the differential-operation planner
//! and the metadata summary, each stated over mathematical models.

pub mod bytes;
pub mod zip_io;
pub mod zip;
pub mod text;
pub mod payload;
pub mod manifest;
pub mod diff;
pub mod stats;
pub mod metadata;
pub mod cli;
