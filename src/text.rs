//! Text held in byte buffers.
use vstd::prelude::*;
use bstr::ByteSlice;

verus! {

/// Every byte is below 128.
pub open spec fn is_ascii_bytes(b: Seq<u8>) -> bool {
    forall|i: int| 0 <= i < b.len() ==> #[trigger] b[i] < 128
}

/// The characters of ASCII bytes, one for each byte.
pub open spec fn ascii_chars(b: Seq<u8>) -> Seq<char> {
    b.map_values(|c: u8| c as char)
}

/// Relies on bstr's `ByteSlice::to_str`, which returns the bytes as a string
/// when they are valid UTF-8. ASCII bytes are valid UTF-8, one character per
/// byte.
#[verifier::external_body]
pub(crate) fn ascii_string(bytes: &[u8]) -> (r: Option<String>)
    ensures
        is_ascii_bytes(bytes@) ==> r.is_some(),
        is_ascii_bytes(bytes@) ==> r.unwrap()@ == ascii_chars(bytes@),
{
    bytes.to_str().ok().map(|s| s.to_string())
}

} // verus!
