//! Batch processing of DICOM folders: pixel rendering to 8-bit rasters,
//! de-identification of metadata, batch bookkeeping and tag statistics.

pub mod anonymize;
pub mod batch;
pub mod cli;
pub mod discovery;
pub mod export;
pub mod metadata;
pub mod models;
pub mod pixel;
pub mod requests;
pub mod stats;
pub mod text;
pub mod voi;
