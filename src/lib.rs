//! Renders past tornado-warning reports for a date range as a map overlay.
pub mod text;
pub mod query;
pub mod date;
pub mod error;
pub mod range;
pub mod records;
pub mod extract;
pub mod render;
pub mod pipeline;
