//! Ingestion of tabular research data files into a property graph: locations, a file name
//! classifier, a streaming tabular decoder, graph upserts with thresholded emission, and
//! the adaptive bulk delete.
pub mod cli;
pub mod config;
pub mod error;
pub mod file_info;
pub mod graph;
pub mod number;
pub mod options;
pub mod pigean;
pub mod record;
pub mod storage;
pub mod table;
pub mod text;
pub mod tsv;
pub mod upload;
pub mod wipe;
