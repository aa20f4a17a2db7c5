//! Sakamoto: a pipeline-oriented coding agent orchestrator, as a verified
//! library. A task runs through a pipeline of stages; the library decides
//! which stage runs next, what each stage makes of its input and outcome,
//! what a task refers to, and what the tools may touch.
use vstd::prelude::*;

pub mod chars;
pub mod cli;
pub mod config;
pub mod context;
pub mod dag;
pub mod error;
pub mod fetcher;
pub mod grammar;
pub mod json;
pub mod llm;
pub mod mcp;
pub mod parser;
pub mod paths;
pub mod pipeline;
pub mod providers;
pub mod react;
pub mod rules;
pub mod runner;
pub mod scan;
mod sealed;
pub mod stage;
pub mod stages;
pub mod strmap;
pub mod text;
pub mod tools;

verus! {

} // verus!
