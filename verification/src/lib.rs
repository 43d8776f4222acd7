//! A personal time-tracking library: documents with structured metadata and a
//! worklog of start/stop timestamp pairs, a query engine that filters and
//! date-clips them, and a resolver for relative date expressions.

pub mod actions;
pub mod clock;
pub mod date_parse;
pub mod datetime;
pub mod jira;
pub mod model;
pub mod query;
pub mod report;
pub mod storage;
pub mod text;
