//! A store of columns in a RocksDB database: the names of its columns, the options with which it
//! is opened, the reads and writes that carry out a transaction, and the statistics that are
//! gathered of it.
//!
//! Nothing here talks to the database. What it is asked, and what is made of its answers, are
//! functions of plain values, each with a contract.
pub mod column;
pub mod error;
pub mod handles;
pub mod iterate;
pub mod latency;
pub mod number;
pub mod open;
pub mod options;
pub mod perf;
pub mod report;
pub mod statistics;
pub mod text;
pub mod write;
pub mod written;
