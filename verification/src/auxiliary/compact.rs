//! Remote compaction and the summary of memories.
use crate::json::Json;
use crate::response_item::ResponseItem;
use vstd::prelude::*;

verus! {

#[derive(Debug, Clone, PartialEq, Eq)]
pub struct CompactRequest {
    pub model: String,
    pub input: Vec<ResponseItem>,
    pub instructions: String,
    pub tools: Option<Json>,
    pub parallel_tool_calls: bool,
    pub reasoning: Option<Json>,
    pub service_tier: Option<String>,
    pub prompt_cache_key: Option<String>,
    pub text: Option<Json>,
}

#[derive(Debug, Clone, PartialEq, Eq)]
pub struct CompactResponse {
    pub output: Vec<ResponseItem>,
    pub turn_state: Option<String>,
}

/// Replaces the live window by a compacted one, once that has been written to disk: where the
/// write failed, the window stays as it was.
pub fn apply_after_durable_commit<E>(
    live: &mut Vec<ResponseItem>,
    response: CompactResponse,
    committed: Result<(), E>,
) -> (applied: Result<Option<String>, E>)
    ensures
        match committed {
            Ok(()) => applied == Ok::<Option<String>, E>(response.turn_state) && *final(live)
                == response.output,
            Err(error) => applied == Err::<Option<String>, E>(error) && *final(live) == *old(live),
        },
{
    match committed {
        Ok(()) => {
            *live = response.output;
            Ok(response.turn_state)
        },
        Err(error) => Err(error),
    }
}

#[derive(Debug, Clone, PartialEq, Eq)]
pub struct MemorySummarizeInput {
    pub model: String,
    pub raw_memories: Vec<RawMemory>,
    pub reasoning: Option<Json>,
}

#[derive(Debug, Clone, PartialEq, Eq)]
pub struct RawMemory {
    pub id: String,
    pub metadata: RawMemoryMetadata,
    pub items: Vec<Json>,
}

#[derive(Debug, Clone, PartialEq, Eq)]
pub struct RawMemoryMetadata {
    pub source_path: String,
}

#[derive(Debug, Clone, PartialEq, Eq)]
pub struct MemorySummarizeOutput {
    /// On the wire `trace_summary`.
    pub raw_memory: String,
    pub memory_summary: String,
}

} // verus!
