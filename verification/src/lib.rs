//! Concord compares the observed behaviour of JavaScript and TypeScript
//! linters and formatters: it normalizes their diagnostics, matches them
//! deterministically, scores the agreement and minimizes reproductions.
pub mod adapters;
pub mod capabilities;
pub mod cli;
pub mod config;
pub mod discovery;
pub mod error;
pub mod json;
pub mod matching;
pub mod model;
pub mod order;
pub mod paths;
pub mod process;
pub mod reduce;
pub mod report;
pub mod scoring;
pub mod terminal;
pub mod text;
