//! Headless core of an agent: canonical messages and tools, the decisions of the
//! turn loop, context budget and compaction, guardrails, sandbox policy, redaction,
//! and the code-mode session. Every item is verified; input and output stay outside.
pub mod agent;
pub mod auxiliary;
pub mod budget;
pub mod cancel;
pub mod code_mode;
pub mod compaction;
pub mod digest;
pub mod error;
pub mod event;
pub mod feedback;
pub mod first;
pub mod guardrail;
pub mod json;
pub mod lap;
pub mod message;
pub mod model;
pub mod permission;
pub mod prompt;
pub mod provider;
pub mod provider_extension;
pub mod quota;
pub mod redaction;
pub mod request;
pub mod response_item;
pub mod response_metadata;
pub mod run;
pub mod sandbox;
pub mod session;
pub mod step;
pub mod text;
pub mod tokenizer;
pub mod tool_spec;
pub mod tools;
pub mod transition;
pub mod turn;

use vstd::prelude::*;

verus! {

} // verus!
