//! Text and its UTF-8 bytes.

use vstd::prelude::*;
use vstd::utf8::{decode_utf8, encode_utf8, encode_utf8_decode_utf8, encode_utf8_valid_utf8, valid_utf8};
use crate::bytes::same_bytes;

verus! {

/// The text of a byte string.
///
/// Calls `std::str::from_utf8`, which succeeds exactly on valid UTF-8 and
/// then gives the text that the bytes encode.
#[verifier::external_body]
pub(crate) fn checked_utf8(b: &[u8]) -> (r: Option<&str>)
    ensures
        match r {
            Some(s) => valid_utf8(b@) && s@ == decode_utf8(b@),
            None => !valid_utf8(b@),
        },
{
    std::str::from_utf8(b).ok()
}

/// What `String::from_utf8_lossy` makes of a byte string.
pub uninterp spec fn lossy_text(b: Seq<u8>) -> Seq<char>;

/// The text of a byte string with whatever is not UTF-8 replaced.
///
/// Calls `String::from_utf8_lossy`: a function of the bytes, and of valid
/// UTF-8 the text that it encodes.
#[verifier::external_body]
pub(crate) fn lossy_utf8(b: &[u8]) -> (r: String)
    ensures
        r@ == lossy_text(b@),
        valid_utf8(b@) ==> r@ == decode_utf8(b@),
{
    String::from_utf8_lossy(b).into_owned()
}

/// Encoding text and decoding it gives the text again.
pub proof fn lemma_text_round_trip(s: Seq<char>)
    ensures
        valid_utf8(encode_utf8(s)),
        decode_utf8(encode_utf8(s)) == s,
{
    encode_utf8_valid_utf8(s);
    encode_utf8_decode_utf8(s);
}

/// Whether two strings are equal.
pub(crate) fn same_text(a: &str, b: &str) -> (r: bool)
    ensures
        r == (a@ == b@),
{
    let r = same_bytes(a.as_bytes(), b.as_bytes());
    proof {
        lemma_text_round_trip(a@);
        lemma_text_round_trip(b@);
    }
    r
}

/// A byte with ASCII upper case folded to lower case.
pub open spec fn fold_byte(b: u8) -> u8 {
    if 65 <= b <= 90 { (b + 32) as u8 } else { b }
}

/// Two strings are equal up to ASCII case.
pub open spec fn same_folded(a: Seq<char>, b: Seq<char>) -> bool {
    let (x, y) = (encode_utf8(a), encode_utf8(b));
    x.len() == y.len() && forall|i: int| 0 <= i < x.len() ==> fold_byte(#[trigger] x[i]) == fold_byte(y[i])
}

/// Whether two strings are equal up to ASCII case.
pub(crate) fn same_text_folded(a: &str, b: &str) -> (r: bool)
    ensures
        r == same_folded(a@, b@),
{
    let x = a.as_bytes();
    let y = b.as_bytes();
    if x.len() != y.len() {
        return false;
    }
    let mut i: usize = 0;
    while i < x.len()
        invariant
            i <= x@.len(),
            x@ == encode_utf8(a@),
            y@ == encode_utf8(b@),
            x@.len() == y@.len(),
            forall|j: int| 0 <= j < i ==> fold_byte(#[trigger] x@[j]) == fold_byte(y@[j]),
        decreases x@.len() - i,
    {
        let p: u8 = if 65 <= x[i] && x[i] <= 90 { x[i] + 32 } else { x[i] };
        let q: u8 = if 65 <= y[i] && y[i] <= 90 { y[i] + 32 } else { y[i] };
        if p != q {
            proof {
                assert(fold_byte(x@[i as int]) != fold_byte(y@[i as int]));
            }
            return false;
        }
        i += 1;
    }
    true
}

} // verus!
