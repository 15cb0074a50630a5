//! Country lookup: maps comma-separated country names to their flag and
//! currency code, in the order given, against a fixed reference table.

pub mod dataset;
pub mod handler;
pub mod laws;
pub mod text;
