//! The moon-filter consumer's decision: whether a text message holds the
//! new-moon emoji and must be deleted.

use vstd::prelude::*;
use crate::text;

verus! {

/// The character the filter hunts: the new-moon face.
pub open spec fn moon() -> char {
    '\u{1F31A}'
}

/// Whether a message with this text is to be deleted: exactly when it
/// holds the new-moon emoji.
pub fn should_delete(data: &str) -> (r: bool)
    ensures
        r == data@.contains(moon()),
{
    let dv = text::str_chars(data);
    let mut i: usize = 0;
    while i < dv.len()
        invariant
            0 <= i <= dv@.len(),
            dv@ == data@,
            forall|j: int| 0 <= j < i ==> dv@[j] != moon(),
        decreases dv@.len() - i,
    {
        if dv[i] == '\u{1F31A}' {
            proof {
                assert(data@[i as int] == moon());
            }
            return true;
        }
        i = i + 1;
    }
    proof {
        if data@.contains(moon()) {
            let w = choose|w: int| 0 <= w < data@.len() && data@[w] == moon();
        }
    }
    false
}

} // verus!
