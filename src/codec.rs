//! The path codec: a canonical path becomes a key that is safe to use as one
//! file name, and a key turns back into the path it was made from.

use base64::Engine;
use vstd::prelude::*;
use vstd::utf8::{decode_utf8, encode_utf8, encode_utf8_decode_utf8, encode_utf8_valid_utf8, valid_utf8};

verus! {

/// What the URL-safe, padded base64 engine makes of a byte sequence.
pub uninterp spec fn base64_of(bytes: Seq<u8>) -> Seq<char>;

/// The key of a canonical path: the base64 text of its UTF-8 bytes.
pub open spec fn key_of(path: Seq<char>) -> Seq<char> {
    base64_of(encode_utf8(path))
}

/// Errors of the path codec.
#[derive(Debug, Clone, Copy, PartialEq, Eq, Structural)]
pub enum CodecError {
    /// The path could not be canonicalized (it does not exist, or cannot be reached).
    UnresolvedPath,
    /// The key is not the encoding of any path.
    Malformed,
}

#[verifier::external_type_specification]
#[verifier::external_body]
pub struct ExDecodeError(base64::DecodeError);

/// Relies on base64's `URL_SAFE.encode`: the padded base64 text of the bytes, written
/// over the alphabet `A-Z a-z 0-9 - _` and the pad `=`, so never holding a `/`.
#[verifier::external_body]
fn base64_encode(bytes: &[u8]) -> (r: String)
    ensures
        r@ == base64_of(bytes@),
        forall|i: int| 0 <= i < r@.len() ==> r@[i] != '/',
{
    base64::engine::general_purpose::URL_SAFE.encode(bytes)
}

/// Relies on base64's `URL_SAFE.decode`: it accepts exactly the canonical padded
/// encodings and gives back the bytes that were encoded.
#[verifier::external_body]
fn base64_decode(text: &str) -> (r: Result<Vec<u8>, base64::DecodeError>)
    ensures
        forall|b: Seq<u8>| text@ == base64_of(b) ==> (r is Ok && r->Ok_0@ == b),
        r is Ok ==> base64_of(r->Ok_0@) == text@,
{
    base64::engine::general_purpose::URL_SAFE.decode(text)
}

/// Relies on `String::from_utf8`: it succeeds exactly on valid UTF-8 and then holds
/// the characters that the bytes encode.
#[verifier::external_body]
fn text_from_utf8(bytes: Vec<u8>) -> (r: Option<String>)
    ensures
        r is Some <==> valid_utf8(bytes@),
        r is Some ==> r->Some_0@ == decode_utf8(bytes@),
{
    String::from_utf8(bytes).ok()
}

/// The key of a path, given the outcome of canonicalizing it: `None` when the
/// path could not be resolved.
pub fn encode_file_path(canonical: Option<&str>) -> (r: Result<String, CodecError>)
    ensures
        canonical is None ==> r == Err::<String, CodecError>(CodecError::UnresolvedPath),
        canonical is Some ==> (r is Ok && r->Ok_0@ == key_of(canonical->Some_0@)),
        r is Ok ==> forall|i: int| 0 <= i < r->Ok_0@.len() ==> r->Ok_0@[i] != '/',
{
    match canonical {
        None => Err(CodecError::UnresolvedPath),
        Some(path) => Ok(base64_encode(path.as_bytes())),
    }
}

/// What `decode_key` returns for a key: the path whose key it is, or `Malformed`
/// when it is the key of no path.
pub open spec fn decodes_as(key: Seq<char>, r: Result<String, CodecError>) -> bool {
    match r {
        Ok(path) => key == key_of(path@) && forall|p: Seq<char>| key == #[trigger] key_of(p) ==> p
            == path@,
        Err(e) => e == CodecError::Malformed && forall|p: Seq<char>| key != #[trigger] key_of(p),
    }
}

/// The canonical path that a key was made from.
pub fn decode_key(key: &str) -> (r: Result<String, CodecError>)
    ensures
        decodes_as(key@, r),
{
    match base64_decode(key) {
        Err(_) => {
            assert forall|p: Seq<char>| key@ != #[trigger] key_of(p) by {}
            Err(CodecError::Malformed)
        },
        Ok(bytes) => {
            let ghost b = bytes@;
            match text_from_utf8(bytes) {
                Some(path) => {
                    proof {
                        broadcast use vstd::utf8::decode_utf8_encode_utf8;
                    }
                    assert(encode_utf8(path@) == b);
                    assert forall|p: Seq<char>| key@ == #[trigger] key_of(p) implies p == path@ by {
                        encode_utf8_decode_utf8(p);
                    }
                    Ok(path)
                },
                None => {
                    assert forall|p: Seq<char>| key@ != #[trigger] key_of(p) by {
                        if key@ == key_of(p) {
                            encode_utf8_valid_utf8(p);
                        }
                    }
                    Err(CodecError::Malformed)
                },
            }
        },
    }
}

/// Decoding the key of a canonical path gives that path back.
pub proof fn lemma_decode_encode(path: Seq<char>, r: Result<String, CodecError>)
    requires
        decodes_as(key_of(path), r),
    ensures
        r is Ok,
        r->Ok_0@ == path,
{
    match r {
        Ok(q) => {},
        Err(_) => {},
    }
}

} // verus!
