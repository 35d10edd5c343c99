//! How a message is framed.

use crate::wire::{length_prefix, prefixed_length};
use vstd::prelude::*;

verus! {

/// A length stands in its four bytes with the most significant first.
pub proof fn law_most_significant_byte_first(n: nat)
    requires
        n < 0x1_0000_0000,
    ensures
        length_prefix(n).len() == 4,
        n == length_prefix(n)[0] * 0x100_0000 + length_prefix(n)[1] * 0x1_0000 + length_prefix(n)[2]
            * 0x100 + length_prefix(n)[3],
{
    assert(n / 0x100_0000 < 0x100);
    assert(n == n / 0x100_0000 * 0x100_0000 + n / 0x1_0000 % 0x100 * 0x1_0000 + n / 0x100 % 0x100
        * 0x100 + n % 0x100);
}

/// Four bytes are read back as the length that they were written for, and every four bytes are the
/// prefix of some length.
pub proof fn law_prefixes_are_lengths(b: Seq<u8>)
    requires
        b.len() == 4,
    ensures
        prefixed_length(b) == b[0] * 0x100_0000 + b[1] * 0x1_0000 + b[2] * 0x100 + b[3],
        prefixed_length(b) < 0x1_0000_0000,
        length_prefix(prefixed_length(b)) == b,
{
    let n = prefixed_length(b);
    assert(n / 0x100_0000 == b[0] && n / 0x1_0000 % 0x100 == b[1] && n / 0x100 % 0x100 == b[2] && n
        % 0x100 == b[3]);
    assert(length_prefix(n) =~= b);
}

} // verus!
