//! Muffle decides which PipeWire links to cut, following filter expressions
//! that match the names of the applications at the two ends of each link.

pub mod app;
pub mod config;
pub mod decimal;
pub mod filter;
pub mod link;
pub mod object;
pub mod parsing;
pub mod pattern;
pub mod signal;
pub mod text;
