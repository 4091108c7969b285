pub mod config;
pub mod document;
pub mod formatter;
pub mod pipeline;
