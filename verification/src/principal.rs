//! Internet Computer principals (canister ids), held as their raw bytes.
use vstd::prelude::*;

verus! {

/// The bytes of the principal that `candid::Principal::from_text` reads
/// from `text`, or `None` where it rejects the text.
pub uninterp spec fn principal_bytes(text: Seq<char>) -> Option<Seq<u8>>;

/// `candid::Principal::from_text`: the result is `principal_bytes(text)`;
/// an accepted principal has at most 29 bytes.
#[verifier::external_body]
pub(crate) fn parse_principal(text: &str) -> (r: Option<Vec<u8>>)
    ensures
        match r {
            Some(b) => principal_bytes(text@) == Some(b@) && b@.len() <= 29,
            None => principal_bytes(text@) is None,
        },
{
    match candid::Principal::from_text(text) {
        Ok(p) => Some(p.as_slice().to_vec()),
        Err(_) => None,
    }
}

/// Reads a principal from its text form: its bytes, or `None` where the
/// text is no principal.
pub fn principal_from_text(text: &str) -> (r: Option<Vec<u8>>)
    ensures
        r is None <==> principal_bytes(text@) is None,
        r matches Some(b) ==> principal_bytes(text@) == Some(b@) && b@.len() <= 29,
{
    parse_principal(text)
}

/// `candid::Principal::anonymous`: the single byte 4 (the anonymous tag).
#[verifier::external_body]
pub(crate) fn anonymous_principal() -> (r: Vec<u8>)
    ensures
        r@ == seq![4u8],
{
    candid::Principal::anonymous().as_slice().to_vec()
}

} // verus!
