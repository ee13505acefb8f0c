//! What is told of a file from its first bytes.

use vstd::prelude::*;

verus! {

/// How many bytes from the beginning of a file are looked at.
pub const SNIFFED_BYTES: usize = 8000;

/// Whether the bytes hold a zero byte: the mark of a file that is no text.
pub fn is_binary_content(bytes: &[u8]) -> (r: bool)
    ensures
        r == bytes@.contains(0u8),
{
    let mut i: usize = 0;
    while i < bytes.len()
        invariant
            i <= bytes.len(),
            forall|j: int| 0 <= j < i ==> bytes@[j] != 0u8,
        decreases bytes.len() - i,
    {
        if bytes[i] == 0 {
            return true;
        }
        i += 1;
    }
    false
}

} // verus!
