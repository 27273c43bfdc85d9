//! The context that the model sees in exactly one request.
use crate::message::Message;
use crate::tool_spec::ToolSpec;
use vstd::prelude::*;

verus! {

/// Where a part of the context comes from.
#[derive(Debug, Clone, Copy, PartialEq, Eq, Structural)]
pub enum ContextFragmentKind {
    Project,
    Skill,
}

/// The context of one request. Two frames of one generation are the same.
#[derive(Debug, Clone, PartialEq, Eq)]
pub struct StepFrame {
    pub generation: u64,
    pub tools: Vec<ToolSpec>,
    pub context_messages: Vec<Message>,
}

impl Default for StepFrame {
    fn default() -> (frame: Self)
        ensures
            frame.generation == 0,
            frame.tools@.len() == 0,
            frame.context_messages@.len() == 0,
    {
        StepFrame { generation: 0, tools: Vec::new(), context_messages: Vec::new() }
    }
}

} // verus!
