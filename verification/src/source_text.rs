use vstd::prelude::*;
use vstd::string::StringSliceAdditionalSpecFns;
use vstd::utf8::{decode_utf8, encode_utf8_decode_utf8, valid_utf8};

verus! {

/// Calls `simdutf8::basic::from_utf8`, which checks whether the bytes are valid UTF-8
/// (it is documented as the analogue of `std::str::from_utf8`) and hands back the
/// bytes as a `&str` when they are. The contract claims exactly that: a string comes
/// back if and only if the bytes are valid UTF-8, and its bytes are the input bytes.
#[verifier::external_body]
fn checked_utf8(bytes: &[u8]) -> (r: Option<&str>)
    ensures
        r is Some <==> valid_utf8(bytes@),
        r matches Some(s) ==> s.spec_bytes() == bytes@,
{
    simdutf8::basic::from_utf8(bytes).ok()
}

/// Turns the bytes of a source file into its text: `None` when they are not valid
/// UTF-8, else the characters they encode.
pub fn decode_source(bytes: &[u8]) -> (r: Option<String>)
    ensures
        r is Some <==> valid_utf8(bytes@),
        r matches Some(s) ==> s@ == decode_utf8(bytes@),
{
    match checked_utf8(bytes) {
        Some(text) => {
            proof {
                encode_utf8_decode_utf8(text@);
            }
            Some(text.to_owned())
        },
        None => None,
    }
}

} // verus!
