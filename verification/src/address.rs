//! Ethereum addresses given as hex text, and the null address that marks
//! mints and burns.
use vstd::prelude::*;
use std::str::FromStr;

verus! {

/// The all-zero address: a transfer from it mints, a transfer to it burns.
pub const NULL_ADDRESS: &'static str = "0x0000000000000000000000000000000000000000";

/// A hex digit, either case.
pub open spec fn is_hex_digit(c: char) -> bool {
    (48 <= c as u32 <= 57) || (97 <= c as u32 <= 102) || (65 <= c as u32 <= 70)
}

/// The value of a hex digit.
pub open spec fn hex_digit_value(c: char) -> int {
    if 48 <= c as u32 <= 57 {
        c as u32 - 48
    } else if 97 <= c as u32 <= 102 {
        c as u32 - 87
    } else {
        c as u32 - 55
    }
}

/// White space that hex reading skips.
pub open spec fn is_hex_space(c: char) -> bool {
    c == ' ' || c == '\r' || c == '\n' || c == '\t'
}

/// `t` with the skipped white space taken out.
pub open spec fn without_hex_space(t: Seq<char>) -> Seq<char> {
    t.filter(|c: char| !is_hex_space(c))
}

/// Text with no white space in it keeps all its characters.
proof fn lemma_without_space_keeps(t: Seq<char>)
    requires
        forall|i: int| 0 <= i < t.len() ==> !is_hex_space(#[trigger] t[i]),
    ensures
        without_hex_space(t) == t,
    decreases t.len(),
{
    reveal(Seq::filter);
    if t.len() > 0 {
        lemma_without_space_keeps(t.drop_last());
        assert(t.drop_last().push(t.last()) =~= t);
    }
}

/// The null address reads as the address of twenty zero bytes.
pub proof fn lemma_null_address_bytes()
    ensures
        address_bytes(NULL_ADDRESS@) == Some(Seq::new(20, |i: int| 0u8)),
{
    reveal_strlit("0x0000000000000000000000000000000000000000");
    let text = NULL_ADDRESS@;
    assert(text.len() == 42);
    let t = text.skip(2);
    assert forall|i: int| 0 <= i < t.len() implies #[trigger] t[i] == '0' by {
        assert(t[i] == text[i + 2]);
    }
    lemma_without_space_keeps(t);
    let d = without_hex_space(t);
    assert(d == t);
    assert forall|i: int| 0 <= i < t.len() implies is_hex_digit(#[trigger] t[i]) || is_hex_space(t[i]) by {
        assert(t[i] == '0');
    }
    let bytes = Seq::new(20, |i: int| (hex_digit_value(d[2 * i]) * 16 + hex_digit_value(d[2 * i + 1])) as u8);
    assert forall|i: int| 0 <= i < 20 implies #[trigger] bytes[i] == 0u8 by {
        assert(d[2 * i] == '0');
        assert(d[2 * i + 1] == '0');
    }
    assert(bytes =~= Seq::new(20, |i: int| 0u8));
}

/// The 20 bytes of an address in hex text: an optional `0x` prefix, then
/// only hex digits and skipped white space, with exactly 40 digits, read
/// two per byte, high digit first; `None` for any other text.
pub open spec fn address_bytes(text: Seq<char>) -> Option<Seq<u8>> {
    let t = if text.len() >= 2 && text[0] == '0' && text[1] == 'x' {
        text.skip(2)
    } else {
        text
    };
    let d = without_hex_space(t);
    if (forall|i: int| 0 <= i < t.len() ==> is_hex_digit(#[trigger] t[i]) || is_hex_space(t[i]))
        && d.len() == 40 {
        Some(Seq::new(20, |i: int| (hex_digit_value(d[2 * i]) * 16 + hex_digit_value(d[2 * i + 1])) as u8))
    } else {
        None
    }
}

/// `ic_web3_rs::types::Address::from_str` (fixed-hash `H160` parsing over
/// rustc-hex's `FromHexIter`): the result is `address_bytes(text)`; text it
/// rejects gives `None`.
#[verifier::external_body]
pub(crate) fn parse_address(text: &str) -> (r: Option<Vec<u8>>)
    ensures
        match r {
            Some(b) => address_bytes(text@) == Some(b@),
            None => address_bytes(text@) is None,
        },
{
    match ic_web3_rs::types::Address::from_str(text) {
        Ok(a) => Some(a.as_bytes().to_vec()),
        Err(_) => None,
    }
}

/// Whether two byte strings are equal.
fn bytes_equal(a: &Vec<u8>, b: &Vec<u8>) -> (r: bool)
    ensures
        r == (a@ == b@),
{
    if a.len() != b.len() {
        return false;
    }
    let mut i: usize = 0;
    while i < a.len()
        invariant
            a@.len() == b@.len(),
            i <= a@.len(),
            forall|j: int| 0 <= j < i ==> a@[j] == b@[j],
        decreases a@.len() - i,
    {
        if a[i] != b[i] {
            return false;
        }
        i = i + 1;
    }
    assert(a@ =~= b@);
    true
}

/// Reads `address`; `None` where it is no address, else whether it is the
/// null address.
pub fn check_null_address(address: &String) -> (r: Option<bool>)
    ensures
        r is Some <==> address_bytes(address@) is Some,
        r matches Some(b) ==> b == (address_bytes(address@) == address_bytes(NULL_ADDRESS@)),
{
    proof {
        lemma_null_address_bytes();
    }
    let a = parse_address(address.as_str());
    let n = parse_address(NULL_ADDRESS);
    match (a, n) {
        (Some(x), Some(y)) => Some(bytes_equal(&x, &y)),
        _ => None,
    }
}

/// Whether `address` is the null address: the text is read as an address
/// and compared with the null address. Text that is no address is a caller
/// error.
pub fn is_null_address(address: &String) -> (r: bool)
    requires
        address_bytes(address@) is Some,
    ensures
        r == (address_bytes(address@) == address_bytes(NULL_ADDRESS@)),
{
    match check_null_address(address) {
        Some(b) => b,
        None => false,
    }
}

} // verus!
