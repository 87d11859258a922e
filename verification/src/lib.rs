//! Streaming ingest, relational flattening and temporal coauthor expansion
//! for the DBLP bibliography.

pub mod bag;
pub mod calendar;
pub mod dataset;
pub mod db;
pub mod pattern;
pub mod roster;
pub mod text;
