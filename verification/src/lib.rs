//! Jobseeker: the logic of a job-search companion, verified with Verus.
//!
//! The library holds what the application decides and computes: parsing of
//! location lists, filtering and ordering of stored job ads, CSV exports,
//! text extraction helpers, the extractive summarizer, Markdown helpers and
//! the report texts. Storage, network and the user interface live around it.

pub mod text;
pub mod models;
pub mod locations;
pub mod extractor;
pub mod summarizer;
pub mod jobs;
pub mod exports;
pub mod maintenance;
pub mod migration;
pub mod reports;
pub mod merge;
pub mod listing;
pub mod editor;
pub mod document;
pub mod logs;
pub mod platform;
pub mod search;
pub mod ranking;
pub mod session;
