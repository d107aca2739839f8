//! What makes two events copies of one another.

use compact_str::CompactString;
use vstd::prelude::*;

use crate::compact;
use crate::event::CodexTokenUsageEvent;
use crate::fingerprint;

verus! {

/// The part of an event that its copies in other sessions share: when the tokens were used, by
/// which model, and how many. The session, the tier and the origin of the model are no part of
/// it.
#[verifier::ext_equal]
pub struct KeyView {
    pub timestamp: Seq<char>,
    pub model: Option<Seq<char>>,
    pub input_tokens: u64,
    pub cached_input_tokens: u64,
    pub output_tokens: u64,
    pub reasoning_output_tokens: u64,
    pub total_tokens: u64,
}

/// The key of an event. Two events with one key are copies of one another.
pub open spec fn key_of(event: CodexTokenUsageEvent) -> KeyView {
    KeyView {
        timestamp: event.timestamp@,
        model: match event.model {
            Some(model) => Some(model@),
            None => None,
        },
        input_tokens: event.input_tokens,
        cached_input_tokens: event.cached_input_tokens,
        output_tokens: event.output_tokens,
        reasoning_output_tokens: event.reasoning_output_tokens,
        total_tokens: event.total_tokens,
    }
}

/// The fingerprint of a key.
pub open spec fn key_fingerprint(key: KeyView) -> u64 {
    let at = fingerprint::mixed_text(fingerprint::FINGERPRINT_BASIS, key.timestamp);
    let by = match key.model {
        Some(model) => fingerprint::mixed_text(at, model),
        None => at,
    };
    let input = fingerprint::mixed(by, key.input_tokens);
    let cached = fingerprint::mixed(input, key.cached_input_tokens);
    let output = fingerprint::mixed(cached, key.output_tokens);
    let reasoning = fingerprint::mixed(output, key.reasoning_output_tokens);
    fingerprint::mixed(reasoning, key.total_tokens)
}

/// The fingerprint of the key of `event`.
pub fn fingerprint_of(event: &CodexTokenUsageEvent) -> (fingerprint: u64)
    ensures
        fingerprint == key_fingerprint(key_of(*event)),
{
    let at: u64 = fingerprint::mix_text(
        fingerprint::FINGERPRINT_BASIS,
        event.timestamp.as_str(),
    );
    let by: u64 = match &event.model {
        Some(model) => fingerprint::mix_text(at, model.as_str()),
        None => at,
    };
    let input: u64 = fingerprint::mix(by, event.input_tokens);
    let cached: u64 = fingerprint::mix(input, event.cached_input_tokens);
    let output: u64 = fingerprint::mix(cached, event.output_tokens);
    let reasoning: u64 = fingerprint::mix(output, event.reasoning_output_tokens);
    fingerprint::mix(reasoning, event.total_tokens)
}

/// A key that a loader keeps beside the event it was taken from.
pub struct EventKey {
    timestamp: CompactString,
    model: Option<CompactString>,
    input_tokens: u64,
    cached_input_tokens: u64,
    output_tokens: u64,
    reasoning_output_tokens: u64,
    total_tokens: u64,
}

impl View for EventKey {
    type V = KeyView;

    closed spec fn view(&self) -> KeyView {
        KeyView {
            timestamp: compact::compact_text(self.timestamp),
            model: match self.model {
                Some(model) => Some(compact::compact_text(model)),
                None => None,
            },
            input_tokens: self.input_tokens,
            cached_input_tokens: self.cached_input_tokens,
            output_tokens: self.output_tokens,
            reasoning_output_tokens: self.reasoning_output_tokens,
            total_tokens: self.total_tokens,
        }
    }
}

impl EventKey {
    /// The key of `event`.
    pub fn of(event: &CodexTokenUsageEvent) -> (key: Self)
        ensures
            key@ == key_of(*event),
    {
        EventKey {
            timestamp: compact::compact_from(event.timestamp.as_str()),
            model: match &event.model {
                Some(model) => Some(compact::compact_from(model.as_str())),
                None => None,
            },
            input_tokens: event.input_tokens,
            cached_input_tokens: event.cached_input_tokens,
            output_tokens: event.output_tokens,
            reasoning_output_tokens: event.reasoning_output_tokens,
            total_tokens: event.total_tokens,
        }
    }

    /// Whether two keys are equal.
    pub fn same(&self, other: &EventKey) -> (same: bool)
        ensures
            same == (self@ == other@),
    {
        let same_model = match (&self.model, &other.model) {
            (Some(left), Some(right)) => compact::compact_same(left, right),
            (None, None) => true,
            _ => false,
        };
        same_model && self.input_tokens == other.input_tokens && self.cached_input_tokens
            == other.cached_input_tokens && self.output_tokens == other.output_tokens
            && self.reasoning_output_tokens == other.reasoning_output_tokens && self.total_tokens
            == other.total_tokens && compact::compact_same(&self.timestamp, &other.timestamp)
    }
}

} // verus!
