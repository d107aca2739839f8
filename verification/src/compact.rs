//! The compact strings that event keys are made of.

use compact_str::CompactString;
use vstd::prelude::*;

verus! {

/// `compact_str::CompactString`, a string that keeps a short text inline.
#[verifier::external_type_specification]
#[verifier::external_body]
pub struct ExCompactString(compact_str::CompactString);

/// The characters that a compact string holds.
pub uninterp spec fn compact_text(compact: CompactString) -> Seq<char>;

/// Calls `CompactString::new`, which copies a text: the compact string holds the characters of
/// `text`.
#[verifier::external_body]
pub(crate) fn compact_from(text: &str) -> (compact: CompactString)
    ensures
        compact_text(compact) == text@,
{
    CompactString::new(text)
}

/// Calls `CompactString`'s `PartialEq::eq`, which compares the texts of two compact strings: they
/// are equal if and only if they hold the same characters.
#[verifier::external_body]
pub(crate) fn compact_same(left: &CompactString, right: &CompactString) -> (same: bool)
    ensures
        same == (compact_text(*left) == compact_text(*right)),
{
    left == right
}

} // verus!
