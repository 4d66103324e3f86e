//! Patch application engine: parsing of the patch format, tolerant line
//! search, content derivation and the rendering of operation summaries.

pub mod text;
pub mod seek_sequence;
pub mod parser;
pub mod content;
pub mod path_expansion;
pub mod patch;
pub mod command;
pub mod config;
pub mod locator;
pub mod cli;
pub mod server;
