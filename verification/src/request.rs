//! What is sent to the translation endpoint: the check of the language codes
//! and the address of the request.

use vstd::prelude::*;
use vstd::string::StringExecFns;
use vstd::string::StringSliceAdditionalSpecFns;
use crate::error::{Failure, TranslationError};
use crate::text::{
    char_is_ascii_alphabetic, chars_of, is_ascii_alphabetic, owned_view, parse_u64, parsed_u64,
    present_text, text_view, trimmed_if_present,
};

verus! {

/// Whether `code` is exactly two ASCII letters: the only form the endpoint is
/// asked with.
pub open spec fn is_two_letter_code(code: Seq<char>) -> bool {
    code.len() == 2 && is_ascii_alphabetic(code[0]) && is_ascii_alphabetic(code[1])
}

/// What a caller is told about a code that is not two letters.
pub open spec fn invalid_code_message(code: Seq<char>) -> Seq<char> {
    "invalid language code: "@ + code
}

/// Accepts `code` if it is exactly two ASCII letters, and says which code was
/// refused otherwise.
pub fn validate_language_code(code: &str) -> (checked: Result<(), TranslationError>)
    ensures
        match checked {
            Ok(()) => is_two_letter_code(code@),
            Err(error) => !is_two_letter_code(code@) && error@ == Failure::InvalidInput(
                invalid_code_message(code@),
            ),
        },
{
    let v = chars_of(code);
    if v.len() == 2 && char_is_ascii_alphabetic(v[0]) && char_is_ascii_alphabetic(v[1]) {
        return Ok(());
    }
    let mut message = "invalid language code: ".to_owned();
    message.append(code);
    Err(TranslationError::InvalidInput(message))
}

/// Bytes that stand for themselves in a query: ASCII letters and digits and
/// `-`, `.`, `_`, `~`.
pub open spec fn is_unreserved(byte: u8) -> bool {
    ||| 0x30 <= byte <= 0x39
    ||| 0x41 <= byte <= 0x5A
    ||| 0x61 <= byte <= 0x7A
    ||| byte == 0x2D
    ||| byte == 0x2E
    ||| byte == 0x5F
    ||| byte == 0x7E
}

/// The upper-case hexadecimal digit for a value below sixteen.
pub open spec fn hex_digit(value: int) -> char {
    if value < 10 {
        (0x30 + value) as u8 as char
    } else {
        (0x41 + value - 10) as u8 as char
    }
}

/// One byte as it stands in a query: itself if unreserved, and otherwise a
/// percent sign and its two hexadecimal digits.
pub open spec fn percent_encoded_byte(byte: u8) -> Seq<char> {
    if is_unreserved(byte) {
        seq![byte as char]
    } else {
        seq!['%', hex_digit(byte as int / 16), hex_digit(byte as int % 16)]
    }
}

/// The bytes as they stand in a query.
pub open spec fn percent_encoded(bytes: Seq<u8>) -> Seq<char>
    decreases bytes.len(),
{
    if bytes.len() == 0 {
        Seq::empty()
    } else {
        percent_encoded_byte(bytes[0]) + percent_encoded(bytes.drop_first())
    }
}

/// `urlencoding::encode`: every byte of the text's UTF-8 form is kept if it
/// is an ASCII letter, a digit or one of `-`, `.`, `_`, `~`, and written as
/// `%` and two upper-case hexadecimal digits otherwise.
#[verifier::external_body]
fn url_encode(text: &str) -> (encoded: String)
    ensures
        encoded@ == percent_encoded(text.spec_bytes()),
{
    urlencoding::encode(text).into_owned()
}

/// The address that asks the endpoint to translate `text` from
/// `source_language` to `target_language`.
pub open spec fn request_url_of(
    source_language: Seq<char>,
    target_language: Seq<char>,
    text: Seq<char>,
) -> Seq<char> {
    "https://translate.googleapis.com/translate_a/single?client=gtx&sl="@ + source_language
        + "&tl="@ + target_language + "&dt=t&q="@ + percent_encoded(vstd::utf8::encode_utf8(text))
}

/// The address that asks the endpoint to translate `text` from
/// `source_language` to `target_language`.
pub fn request_url(source_language: &str, target_language: &str, text: &str) -> (url: String)
    ensures
        url@ == request_url_of(source_language@, target_language@, text@),
{
    let encoded = url_encode(text);
    let mut url = "https://translate.googleapis.com/translate_a/single?client=gtx&sl=".to_owned();
    url.append(source_language);
    url.append("&tl=");
    url.append(target_language);
    url.append("&dt=t&q=");
    url.append(encoded.as_str());
    url
}

/// How long a request may take where nothing else is configured, in seconds.
pub const DEFAULT_TIMEOUT_SECONDS: u64 = 20;

/// What every request says it accepts.
pub const ACCEPT_HEADER: &'static str = "application/json,text/plain,*/*";

/// How long a request may take, in seconds: the configured number where one
/// is configured and can be read, and the default otherwise.
pub open spec fn timeout_seconds_of(configured: Option<Seq<char>>) -> u64 {
    match configured {
        Some(value) => match parsed_u64(value) {
            Some(seconds) => seconds,
            None => DEFAULT_TIMEOUT_SECONDS,
        },
        None => DEFAULT_TIMEOUT_SECONDS,
    }
}

/// How long a request may take, in seconds.
pub fn request_timeout_seconds(configured: Option<&str>) -> (seconds: u64)
    ensures
        seconds == timeout_seconds_of(text_view(configured)),
{
    match configured {
        Some(value) => match parse_u64(value) {
            Some(seconds) => seconds,
            None => DEFAULT_TIMEOUT_SECONDS,
        },
        None => DEFAULT_TIMEOUT_SECONDS,
    }
}

/// The `User-Agent` that a request carries: the configured one, trimmed,
/// unless none is configured or it is blank.
pub fn user_agent_header(configured: Option<&str>) -> (agent: Option<String>)
    ensures
        owned_view(agent) == present_text(text_view(configured)),
{
    trimmed_if_present(configured)
}

} // verus!
