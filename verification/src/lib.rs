//! A declarative HTTP-endpoint engine: endpoints are loaded from a YAML
//! directory tree, each one a small graph of named tasks (returns,
//! assignments, switches, outbound calls, mocks, sub-templates and
//! documentation declarations), executed per request inside an evaluation
//! context that embeds a sandboxed JavaScript interpreter.

pub mod text;
pub mod yaml;
pub mod json;
pub mod request;
pub mod context;
pub mod render;
pub mod merge;
pub mod parser;
pub mod tasks;
pub mod engine;
