//! The send-retry decision: a failed transport call is retried only when
//! the error text reports rate limiting.

use vstd::prelude::*;
use crate::text;

verus! {

/// Whether a failed send is worth retrying after a pause: exactly when
/// the error text reports "Too Many Requests".
pub fn should_retry(err_text: &str) -> (r: bool)
    ensures
        r == text::has_sub(err_text@, "Too Many Requests"@),
{
    text::str_contains(err_text, "Too Many Requests")
}

} // verus!
