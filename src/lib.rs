//! Team-attributed code-coverage reports: attribution of per-file coverage
//! records to owning teams, per-team aggregation, and the delimited text
//! format the reports are read from and written to.

pub mod text;
pub mod model;
pub mod attribution;
pub mod report;
pub mod csv;
pub mod errors;
pub mod ownership;
pub mod writer;
pub mod paths;
pub mod cli;
pub mod pipeline;
