//! Spreadsheet ingestion and keyword search.
//!
//! The crate holds the rules of a small indexing service: how the cells of a
//! workbook become typed rows, how rows are cleaned and turned into search
//! text, when a file has to be imported again, how a batch of files is
//! scheduled and counted, how rows are matched, scored, ordered and paged, and
//! how a result set is laid out as a workbook again.  Every function carries a
//! contract over mathematical models of its data, and the contracts are proved.

pub mod cache;
pub mod cell;
pub mod columns;
pub mod coordinator;
pub mod counts;
pub mod export;
pub mod fingerprint;
pub mod i18n;
pub mod importer;
pub mod json;
pub mod models;
pub mod naming;
pub mod processor;
pub mod ranking;
pub mod reader;
pub mod record;
pub mod row;
pub mod scanner;
pub mod search;
pub mod sequences;
pub mod store;
pub mod text;
pub mod workbook;
