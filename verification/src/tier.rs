//! Service tiers recorded in session logs.

use vstd::prelude::*;

verus! {

/// The service tier under which tokens were used.
#[derive(Clone, Copy, Debug, PartialEq, Eq, Structural)]
pub enum CodexServiceTier {
    Standard,
    Fast,
}

/// The tier of an event of which two copies carry `left` and `right`: a recorded tier prevails
/// over none, and of two different recorded tiers `Standard` prevails.
pub open spec fn merged_tier(
    left: Option<CodexServiceTier>,
    right: Option<CodexServiceTier>,
) -> Option<CodexServiceTier> {
    if left == Some(CodexServiceTier::Standard) || right == Some(CodexServiceTier::Standard) {
        Some(CodexServiceTier::Standard)
    } else if left == Some(CodexServiceTier::Fast) || right == Some(CodexServiceTier::Fast) {
        Some(CodexServiceTier::Fast)
    } else {
        None
    }
}

/// Combines the tiers that two copies of one event carry.
pub fn merge_codex_service_tiers(
    left: Option<CodexServiceTier>,
    right: Option<CodexServiceTier>,
) -> (merged: Option<CodexServiceTier>)
    ensures
        merged == merged_tier(left, right),
{
    match (left, right) {
        (None, tier) => tier,
        (tier, None) => tier,
        (Some(CodexServiceTier::Fast), Some(CodexServiceTier::Fast)) => Some(
            CodexServiceTier::Fast,
        ),
        _ => Some(CodexServiceTier::Standard),
    }
}

} // verus!
