//! Capture time, stamped on each snapshot as an RFC 3339 string.

use vstd::prelude::*;

verus! {

/// Relies on chrono's `Utc::now().to_rfc3339()`: the current UTC instant in
/// RFC 3339 form. Such a string is nonempty and consists of digits, letters
/// and `-+:.` only, so it never holds a comma, a double quote or a line
/// break; nothing more is relied on of a reading of the clock.
#[verifier::external_body]
pub(crate) fn now_rfc3339() -> (r: String)
    ensures
        r@.len() > 0,
        !crate::rows::field_needs_quoting(r@),
{
    chrono::Utc::now().to_rfc3339()
}

} // verus!
