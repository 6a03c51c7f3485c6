//! Binary data as text: base64.

use vstd::prelude::*;

verus! {

/// The base64 text of `bytes`: standard alphabet, padded.
pub uninterp spec fn base64_text(bytes: Seq<u8>) -> Seq<char>;

/// The length of the base64 text of `n` bytes: four characters for every three bytes
/// begun.
pub open spec fn base64_len(n: nat) -> nat {
    4 * ((n + 2) / 3)
}

/// `base64::encode`: the standard, padded base64 text of the bytes. It gives up where
/// the length of that text is more than a `usize` holds.
#[verifier::external_body]
fn encode(bytes: &Vec<u8>) -> (s: String)
    requires
        base64_len(bytes@.len()) <= usize::MAX,
    ensures
        s@ == base64_text(bytes@),
{
    base64::encode(bytes)
}

/// Whether the base64 text of `n` bytes has a length that a `usize` holds.
pub fn fits_base64(n: usize) -> (fits: bool)
    ensures
        fits == (base64_len(n as nat) <= usize::MAX),
{
    let groups = if n % 3 > 0 {
        n / 3 + 1
    } else {
        n / 3
    };
    assert(groups == (n + 2) / 3);
    groups <= usize::MAX / 4
}

/// Optional binary data as optional text: the base64 text of the data where there is
/// some. The text must have a length that a `usize` holds, which `fits_base64` tests.
pub fn as_base64(v: &Option<Vec<u8>>) -> (r: Option<String>)
    requires
        *v matches Some(bytes) ==> base64_len(bytes@.len()) <= usize::MAX,
    ensures
        match *v {
            Some(bytes) => r matches Some(s) && s@ == base64_text(bytes@),
            None => r is None,
        },
{
    match v {
        Some(bytes) => Some(encode(bytes)),
        None => None,
    }
}

} // verus!
