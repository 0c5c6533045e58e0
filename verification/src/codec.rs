use vstd::prelude::*;

verus! {

/// The standard padded base64 text of `data`, as `base64::encode` produces it.
pub uninterp spec fn base64_text(data: Seq<u8>) -> Seq<char>;

/// The bytes that `base64::decode` recovers from `text`, or `None` where it
/// rejects `text`.
pub uninterp spec fn base64_bytes(text: Seq<char>) -> Option<Seq<u8>>;

/// The error of `base64::decode`. Nothing is read from it.
#[verifier::external_type_specification]
#[verifier::external_body]
pub struct ExDecodeError(base64::DecodeError);

/// The longest payload whose base64 text (four characters for every three
/// bytes, the last group padded) still fits in one allocation.
pub open spec fn max_encodable_len() -> int {
    isize::MAX / 4 * 3
}

/// Calls `base64::encode`. What comes back depends on `data` alone: its text
/// in the standard alphabet, padded. The bound on the length keeps that text
/// within one allocation; past it the call panics.
#[verifier::external_body]
fn encode_base64(data: &Vec<u8>) -> (text: String)
    requires
        data@.len() <= max_encodable_len(),
    ensures
        text@ == base64_text(data@),
{
    base64::encode(data)
}

/// Calls `base64::decode`, which reads the standard alphabet. What comes back
/// depends on `text` alone: the decoded bytes, or an error where the crate
/// refuses `text`.
#[verifier::external_body]
fn decode_base64(text: &str) -> (decoded: Result<Vec<u8>, base64::DecodeError>)
    ensures
        match decoded {
            Ok(bytes) => base64_bytes(text@) == Some(bytes@),
            Err(_) => base64_bytes(text@) is None,
        },
{
    base64::decode(text)
}

/// The base64 text of `data`, or `None` where `data` is too long to encode.
pub fn encode(data: &Vec<u8>) -> (text: Option<String>)
    ensures
        match text {
            Some(text) => data@.len() <= max_encodable_len() && text@ == base64_text(data@),
            None => data@.len() > max_encodable_len(),
        },
{
    if data.len() <= (isize::MAX as usize) / 4 * 3 {
        Some(encode_base64(data))
    } else {
        None
    }
}

/// The bytes that `text` encodes, or `None` where `text` is refused as base64.
pub fn decode(text: &str) -> (bytes: Option<Vec<u8>>)
    ensures
        match bytes {
            Some(bytes) => base64_bytes(text@) == Some(bytes@),
            None => base64_bytes(text@) is None,
        },
{
    match decode_base64(text) {
        Ok(bytes) => Some(bytes),
        Err(_) => None,
    }
}

} // verus!
