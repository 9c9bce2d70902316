use vstd::prelude::*;

verus! {

/// Estimated token cost of a text of `n` characters: one token for every
/// four characters, rounded up.
pub open spec fn tokens_for_len(n: nat) -> nat {
    (n + 3) / 4
}

/// Estimated token cost of a text.
pub open spec fn estimated_tokens(s: Seq<char>) -> nat {
    tokens_for_len(s.len())
}

/// Rough token estimate: one token per four characters, rounded up.
pub fn estimate_tokens_for_text(text: &str) -> (r: usize)
    ensures
        r == estimated_tokens(text@),
{
    let chars = text.unicode_len();
    let r = chars / 4 + if chars % 4 == 0 { 0 } else { 1 };
    r
}

/// Relies on `SystemTime::duration_since` of `SystemTime::now()` from the
/// Unix epoch, in whole milliseconds; a clock set before the epoch reads
/// as zero.
#[verifier::external_body]
pub(crate) fn millis_since_epoch() -> (r: u128) {
    std::time::SystemTime::now().duration_since(std::time::UNIX_EPOCH).unwrap_or_default().as_millis()
}

} // verus!
