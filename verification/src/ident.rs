//! Fresh identifiers for new nodes.

use vstd::prelude::*;

verus! {

/// Whether the character is a decimal digit or one of `a` to `f`.
pub open spec fn is_lower_hex(c: char) -> bool {
    ('0' <= c && c <= '9') || ('a' <= c && c <= 'f')
}

/// Whether the text has the hyphenated shape of a UUID: thirty-six
/// characters, hyphens after the eighth, twelfth, sixteenth and twentieth
/// digit, and lower-case hexadecimal digits elsewhere.
pub open spec fn is_uuid_text(s: Seq<char>) -> bool {
    &&& s.len() == 36
    &&& forall|i: int|
        0 <= i < 36 ==> if i == 8 || i == 13 || i == 18 || i == 23 {
            #[trigger] s[i] == '-'
        } else {
            is_lower_hex(s[i])
        }
}

/// Draws a random identifier with `uuid::Uuid::new_v4` and writes it out
/// with its `Display`, which is the lower-case hyphenated form. The contract
/// claims that shape and nothing of the digits.
#[verifier::external_body]
pub(crate) fn random_uuid() -> (id: String)
    ensures
        is_uuid_text(id@),
{
    uuid::Uuid::new_v4().to_string()
}

} // verus!
