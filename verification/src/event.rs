//! Token usage events.

use vstd::prelude::*;

use crate::tier::CodexServiceTier;

verus! {

/// The tokens that one request of a Codex session used.
#[derive(Debug, PartialEq, Eq)]
pub struct CodexTokenUsageEvent {
    /// The session whose log holds the event.
    pub session_id: String,
    /// When the request was made, as an RFC 3339 text.
    pub timestamp: String,
    /// The model that answered, if the log tells.
    pub model: Option<String>,
    pub input_tokens: u64,
    /// The part of `input_tokens` that was read from the cache.
    pub cached_input_tokens: u64,
    pub output_tokens: u64,
    /// The part of `output_tokens` that was spent on reasoning.
    pub reasoning_output_tokens: u64,
    pub total_tokens: u64,
    /// Whether `model` was guessed, because the log names none that can be priced.
    pub is_fallback_model: bool,
    /// The tier that the log recorded for the request, if any.
    pub service_tier: Option<CodexServiceTier>,
}

impl Clone for CodexTokenUsageEvent {
    fn clone(&self) -> (copy: Self)
        ensures
            copy == *self,
    {
        CodexTokenUsageEvent {
            session_id: self.session_id.clone(),
            timestamp: self.timestamp.clone(),
            model: match &self.model {
                Some(model) => Some(model.clone()),
                None => None,
            },
            input_tokens: self.input_tokens,
            cached_input_tokens: self.cached_input_tokens,
            output_tokens: self.output_tokens,
            reasoning_output_tokens: self.reasoning_output_tokens,
            total_tokens: self.total_tokens,
            is_fallback_model: self.is_fallback_model,
            service_tier: self.service_tier,
        }
    }
}

} // verus!
