//! Model-call records: responses, token usage, stream chunks and embedding
//! requests.
use vstd::prelude::*;
use crate::text::owned;

verus! {

/// Tokens used by one model call.
#[derive(Clone, Copy, Debug)]
pub struct Usage {
    pub prompt_tokens: usize,
    pub completion_tokens: usize,
    pub total_tokens: usize,
}

/// A completed model call.
#[derive(Clone, Debug)]
pub struct LlmResponse {
    pub content: String,
    pub model: String,
    pub usage: Usage,
    pub finish_reason: String,
}

/// One piece of a streamed answer.
#[derive(Clone, Debug)]
pub struct StreamChunk {
    pub content: String,
    pub is_final: bool,
}

/// A request for the embedding of `input`.
#[derive(Clone, Debug)]
pub struct EmbeddingRequest {
    pub input: String,
    pub model: String,
}

impl EmbeddingRequest {
    /// A request for the embedding of `input` with the default model.
    pub fn new(input: String) -> (r: Self)
        ensures
            r.input == input,
            r.model@ == "text-embedding-3-small"@,
    {
        EmbeddingRequest { input, model: owned("text-embedding-3-small") }
    }
}

} // verus!
