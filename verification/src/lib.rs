//! Decision logic of a competition between code-writing agents.

pub mod agent;
pub mod archive;
pub mod benchmark;
pub mod config;
pub mod context;
pub mod digits;
pub mod embedding;
pub mod evolution;
pub mod fitness;
pub mod gemini;
pub mod harness;
pub mod json;
pub mod measure;
pub mod metaprompt;
pub mod orchestrator;
pub mod prompts;
pub mod ranking;
pub mod text;
