//! The zk assembly language: its source-line form, symbol tables, parser and
//! output stage.

pub mod output;
pub mod parser;
pub mod state;
pub mod types;
