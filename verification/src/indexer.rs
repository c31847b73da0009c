//! Indexing helpers: token estimates.

use vstd::prelude::*;
use crate::text::str_len;

verus! {

/// The token estimate of a text of `len` UTF-8 bytes: one token per four
/// bytes, rounded up, truncated to 32 bits.
pub open spec fn token_estimate(len: usize) -> u32 {
    ((len as int + 3) / 4) as u32
}

/// A rough token count: about one token per four bytes of English text.
pub fn estimate_tokens(text: String) -> (n: u32)
    ensures
        n == token_estimate(str_len(text@)),
{
    let len = text.as_str().len();
    let quarter = len / 4 + if len % 4 == 0 { 0 } else { 1 };
    assert(quarter == (len as int + 3) / 4);
    #[verifier::truncate] (quarter as u32)
}

/// The estimate is the byte length divided by four, rounded up, whenever it
/// fits in 32 bits: four times it covers the length, by less than four.
pub proof fn token_estimate_rounds_up(len: usize)
    requires
        len <= 4 * 0xffff_ffffusize as int,
    ensures
        4 * (token_estimate(len) as int) >= len,
        4 * (token_estimate(len) as int) < len + 4,
{
    assert((len as int + 3) / 4 <= 0xffff_ffff);
}

} // verus!
