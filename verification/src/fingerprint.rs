//! Fingerprints of keys, by which an index files what it holds.

use vstd::prelude::*;
use vstd::utf8;

verus! {

/// The offset basis of the 64-bit FNV-1a hash.
pub const FINGERPRINT_BASIS: u64 = 0xcbf2_9ce4_8422_2325;

/// The prime of the 64-bit FNV-1a hash.
pub const FINGERPRINT_PRIME: u64 = 0x0000_0100_0000_01b3;

/// The fingerprint of what was taken in so far, followed by `word`.
pub open spec fn mixed(fingerprint: u64, word: u64) -> u64 {
    (fingerprint ^ word).wrapping_mul(FINGERPRINT_PRIME)
}

/// The fingerprint of what was taken in so far, followed by `bytes`.
pub open spec fn mixed_bytes(fingerprint: u64, bytes: Seq<u8>) -> u64
    decreases bytes.len(),
{
    if bytes.len() == 0 {
        fingerprint
    } else {
        mixed(mixed_bytes(fingerprint, bytes.drop_last()), bytes.last() as u64)
    }
}

/// The fingerprint of what was taken in so far, followed by a text and its end.
pub open spec fn mixed_text(fingerprint: u64, text: Seq<char>) -> u64 {
    mixed(mixed_bytes(fingerprint, utf8::encode_utf8(text)), 0xff)
}

/// Takes a word into a fingerprint.
pub fn mix(fingerprint: u64, word: u64) -> (mixed: u64)
    ensures
        mixed == self::mixed(fingerprint, word),
{
    (fingerprint ^ word).wrapping_mul(FINGERPRINT_PRIME)
}

/// Takes a text into a fingerprint.
pub fn mix_text(fingerprint: u64, text: &str) -> (mixed: u64)
    ensures
        mixed == mixed_text(fingerprint, text@),
{
    let bytes = text.as_bytes();
    let mut current: u64 = fingerprint;
    let mut taken: usize = 0;
    while taken < bytes.len()
        invariant
            taken <= bytes@.len(),
            bytes@ == utf8::encode_utf8(text@),
            current == mixed_bytes(fingerprint, bytes@.take(taken as int)),
        decreases bytes@.len() - taken,
    {
        proof {
            assert(bytes@.take(taken + 1).drop_last() =~= bytes@.take(taken as int));
        }
        current = mix(current, bytes[taken] as u64);
        taken += 1;
    }
    proof {
        assert(bytes@.take(taken as int) =~= bytes@);
    }
    mix(current, 0xff)
}

} // verus!
