//! Mutation testing for Python projects.
pub mod ast;
pub mod cli;
pub mod config;
pub mod coverage;
pub mod decimal;
pub mod double;
pub mod duration;
pub mod error;
pub mod expressions;
pub mod held;
pub mod init;
pub mod json;
pub mod lines;
pub mod mutation;
pub mod numbers;
pub mod order;
pub mod parse;
pub mod paths;
pub mod pattern;
pub mod pipeline;
pub mod plugin;
pub mod plugin_index;
pub mod progress;
pub mod pyproject;
pub mod python;
pub mod report;
pub mod runner;
pub mod text;
pub mod toml_text;
pub mod tree;

pub use error::Error;
