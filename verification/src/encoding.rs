//! Text as URL-safe base64 without padding, as it travels in a start link.

use base64::alphabet;
use base64::engine::general_purpose;
use base64::engine::GeneralPurpose;
use base64::DecodeError;
use base64::Engine;
use std::string::FromUtf8Error;
use vstd::prelude::*;
use vstd::string::*;
use vstd::utf8::{decode_utf8, encode_utf8, valid_utf8};

verus! {

/// The error of `base64`'s decoder. Nothing is known of a value of it.
#[verifier::external_type_specification]
#[verifier::external_body]
pub struct ExDecodeError(DecodeError);

/// The error of `String::from_utf8`. Nothing is known of a value of it.
#[verifier::external_type_specification]
#[verifier::external_body]
pub struct ExFromUtf8Error(FromUtf8Error);

/// What `base64`'s engine for the URL-safe alphabet without padding makes of
/// `bytes`. The name says only that the same bytes give the same text.
pub uninterp spec fn url_safe_no_pad(bytes: Seq<u8>) -> Seq<char>;

/// What `base64`'s engine for the URL-safe alphabet without padding reads
/// from `input`, or `None` where it refuses the input. The name says only
/// that the same input gives the same result.
pub uninterp spec fn url_safe_no_pad_decoding(input: Seq<u8>) -> Option<Seq<u8>>;

/// `String::from_utf8`: the bytes are taken as text exactly when they are
/// valid UTF-8, and the text is then the characters that they encode.
pub assume_specification[ String::from_utf8 ](vec: Vec<u8>) -> (text: Result<
    String,
    FromUtf8Error,
>)
    ensures
        text is Ok <==> valid_utf8(vec@),
        text matches Ok(s) ==> s@ == decode_utf8(vec@),
;

/// `Engine::encode` of `base64`, on the engine `GeneralPurpose::new` makes
/// for the alphabet `URL_SAFE` and the configuration `NO_PAD`: the result is
/// the encoding of `bytes`, whatever that is.
#[verifier::external_body]
fn engine_encode(bytes: &[u8]) -> (out: String)
    ensures
        out@ == url_safe_no_pad(bytes@),
{
    GeneralPurpose::new(&alphabet::URL_SAFE, general_purpose::NO_PAD).encode(bytes)
}

/// `Engine::decode` of `base64`, on the same engine: the result is `Ok` with
/// the bytes that the engine reads from `input`, or `Err` where it refuses
/// the input.
#[verifier::external_body]
fn engine_decode(input: &[u8]) -> (decoded: Result<Vec<u8>, DecodeError>)
    ensures
        match decoded {
            Ok(bytes) => url_safe_no_pad_decoding(input@) == Some(bytes@),
            Err(_) => url_safe_no_pad_decoding(input@) is None,
        },
{
    GeneralPurpose::new(&alphabet::URL_SAFE, general_purpose::NO_PAD).decode(input)
}

/// The text that decoded bytes stand for: the characters that they encode
/// where they were decoded and are valid UTF-8.
pub open spec fn text_of(decoded: Option<Seq<u8>>) -> Option<Seq<char>> {
    match decoded {
        Some(bytes) => if valid_utf8(bytes) {
            Some(decode_utf8(bytes))
        } else {
            None
        },
        None => None,
    }
}

/// The message of the one error of decoding.
pub open spec fn decoding_error() -> Seq<char> {
    "Error decoding"@
}

/// What a result of this module is to a reader of contracts: its text, or
/// nothing where it is the error.
pub open spec fn outcome(result: Result<String, &'static str>) -> Option<Seq<char>> {
    match result {
        Ok(text) => Some(text@),
        Err(_) => None,
    }
}

/// The bytes of a decoder's result, or nothing where it is an error.
pub open spec fn decoded_bytes(decoded: Result<Vec<u8>, DecodeError>) -> Option<Seq<u8>> {
    match decoded {
        Ok(bytes) => Some(bytes@),
        Err(_) => None,
    }
}

/// `text` as URL-safe base64 without padding.
pub fn base64_encode(text: String) -> (out: String)
    ensures
        out@ == url_safe_no_pad(encode_utf8(text@)),
{
    engine_encode(text.as_str().as_bytes())
}

/// Turns what the decoder gave into text. The result is the error exactly
/// when the decoder refused its input or the bytes are not valid UTF-8.
pub fn text_from_decoded(decoded: Result<Vec<u8>, DecodeError>) -> (text: Result<
    String,
    &'static str,
>)
    ensures
        outcome(text) == text_of(decoded_bytes(decoded)),
        text matches Err(message) ==> message@ == decoding_error(),
{
    match decoded {
        Ok(bytes) => match String::from_utf8(bytes) {
            Ok(text) => Ok(text),
            Err(_) => Err("Error decoding"),
        },
        Err(_) => Err("Error decoding"),
    }
}

/// Reads `text` as URL-safe base64 without padding that encodes UTF-8 text.
/// The result is the error exactly when `text` is not such base64 or the
/// bytes that it encodes are not valid UTF-8.
pub fn base64_decode(text: String) -> (out: Result<String, &'static str>)
    ensures
        outcome(out) == text_of(url_safe_no_pad_decoding(encode_utf8(text@))),
        out matches Err(message) ==> message@ == decoding_error(),
{
    text_from_decoded(engine_decode(text.as_str().as_bytes()))
}

} // verus!
