//! Decoding of the translation endpoint's reply.
//!
//! The endpoint answers with nested JSON arrays: the first element of the
//! top-level array lists the translated sentences, and the first element of
//! each sentence is one piece of the translated text.

use vstd::prelude::*;
use vstd::string::StringExecFns;
use crate::error::{outcome_view, Failure, TranslationError};
use crate::text::{
    ascii_lowercase, chars_of, contains_chars, contains_run, is_blank, to_ascii_lowercase, trim,
};

verus! {

/// A JSON document, as far as this crate reads one: the text of a string, the
/// items of an array, and which kind of value stands in any other place.
#[derive(Debug, PartialEq, Eq)]
pub enum JsonValue {
    Null,
    Bool(bool),
    Number,
    Text(String),
    Array(Vec<JsonValue>),
    Object,
}

/// The mathematical form of a [`JsonValue`].
pub ghost enum JsonView {
    Null,
    Bool(bool),
    Number,
    Text(Seq<char>),
    Array(Seq<JsonView>),
    Object,
}

impl View for JsonValue {
    type V = JsonView;

    open spec fn view(&self) -> JsonView
        decreases self,
    {
        match self {
            JsonValue::Null => JsonView::Null,
            JsonValue::Bool(b) => JsonView::Bool(*b),
            JsonValue::Number => JsonView::Number,
            JsonValue::Text(s) => JsonView::Text(s@),
            JsonValue::Array(items) => JsonView::Array(
                Seq::new(
                    items@.len(),
                    |i: int|
                        if 0 <= i < items@.len() {
                            items@[i].view()
                        } else {
                            JsonView::Null
                        },
                ),
            ),
            JsonValue::Object => JsonView::Object,
        }
    }
}

/// `serde_json::Value`, of which nothing is visible here: a parsed document
/// is moved into a [`JsonValue`] before anything reads it.
#[verifier::external_type_specification]
#[verifier::external_body]
pub struct ExJsonDocument(serde_json::Value);

/// What `serde_json::from_str` makes of `body` when asked for a
/// `serde_json::Value`: the document, or the text of the parser's error.
pub uninterp spec fn json_parse(body: Seq<char>) -> Result<JsonView, Seq<char>>;

/// Moves a `serde_json::Value` into a [`JsonValue`], variant by variant. Of a
/// number and of an object only the kind is kept.
#[verifier::external_body]
fn json_value_of(value: serde_json::Value) -> JsonValue {
    match value {
        serde_json::Value::Null => JsonValue::Null,
        serde_json::Value::Bool(b) => JsonValue::Bool(b),
        serde_json::Value::Number(_) => JsonValue::Number,
        serde_json::Value::String(s) => JsonValue::Text(s),
        serde_json::Value::Array(items) => JsonValue::Array(
            items.into_iter().map(json_value_of).collect(),
        ),
        serde_json::Value::Object(_) => JsonValue::Object,
    }
}

/// Calls `serde_json::from_str` for a `serde_json::Value`. The contract only
/// claims that the outcome is a function of the text handed in; nothing is
/// said about which texts parse.
#[verifier::external_body]
fn parse_json(body: &str) -> (out: Result<JsonValue, String>)
    ensures
        match out {
            Ok(document) => json_parse(body@) == Ok::<JsonView, Seq<char>>(document@),
            Err(reason) => json_parse(body@) == Err::<JsonView, Seq<char>>(reason@),
        },
{
    match serde_json::from_str::<serde_json::Value>(body) {
        Ok(value) => Ok(json_value_of(value)),
        Err(error) => Err(error.to_string()),
    }
}

/// The piece of text that one sentence contributes: its first element where
/// the sentence is an array that starts with a string, and nothing otherwise.
pub open spec fn segment_text(sentence: JsonView) -> Seq<char> {
    match sentence {
        JsonView::Array(parts) => if parts.len() > 0 && parts[0] is Text {
            parts[0]->Text_0
        } else {
            Seq::empty()
        },
        _ => Seq::empty(),
    }
}

/// The pieces of all sentences, in order, one after the other.
pub open spec fn joined_segments(sentences: Seq<JsonView>) -> Seq<char>
    decreases sentences.len(),
{
    if sentences.len() == 0 {
        Seq::empty()
    } else {
        joined_segments(sentences.drop_last()) + segment_text(sentences.last())
    }
}

/// The translated text that a decoded reply carries, or why it carries none.
pub open spec fn translation_of(document: JsonView) -> Result<Seq<char>, Failure> {
    match document {
        JsonView::Array(root) => if root.len() > 0 && root[0] is Array {
            let text = joined_segments(root[0]->Array_0);
            if trim(text).len() == 0 {
                Err(Failure::InvalidResponse("no translation segments returned"@))
            } else {
                Ok(text)
            }
        } else {
            Err(Failure::InvalidResponse("missing translation segments"@))
        },
        _ => Err(Failure::InvalidResponse("root is not an array"@)),
    }
}

/// The translated text that a reply body carries, given what the JSON parser
/// made of the body.
pub open spec fn translation_of_parsed(parsed: Result<JsonView, Seq<char>>) -> Result<
    Seq<char>,
    Failure,
> {
    match parsed {
        Ok(document) => translation_of(document),
        Err(reason) => Err(Failure::InvalidResponse(reason)),
    }
}

/// Reads the translated text out of a decoded reply.
pub fn extract_translation(document: &JsonValue) -> (out: Result<String, TranslationError>)
    ensures
        outcome_view(out) == translation_of(document@),
{
    let root = match document {
        JsonValue::Array(items) => items,
        _ => {
            return Err(TranslationError::InvalidResponse("root is not an array".to_owned()));
        },
    };
    if root.len() == 0 {
        return Err(TranslationError::InvalidResponse("missing translation segments".to_owned()));
    }
    let sentences = match &root[0] {
        JsonValue::Array(items) => items,
        _ => {
            return Err(
                TranslationError::InvalidResponse("missing translation segments".to_owned()),
            );
        },
    };
    let ghost views = root@[0]@->Array_0;
    assert(document@->Array_0[0] == root@[0]@);
    let mut result = String::new();
    let mut i: usize = 0;
    assert(views.take(0) =~= Seq::<JsonView>::empty());
    while i < sentences.len()
        invariant
            i <= sentences.len(),
            views.len() == sentences@.len(),
            forall|k: int| 0 <= k < views.len() ==> views[k] == (#[trigger] sentences@[k])@,
            result@ == joined_segments(views.take(i as int)),
        decreases sentences.len() - i,
    {
        let ghost before = result@;
        match &sentences[i] {
            JsonValue::Array(parts) => {
                if parts.len() > 0 {
                    match &parts[0] {
                        JsonValue::Text(part) => {
                            assert(sentences@[i as int]@->Array_0[0] == parts@[0]@);
                            result.append(part.as_str());
                        },
                        _ => {
                            assert(sentences@[i as int]@->Array_0[0] == parts@[0]@);
                        },
                    }
                }
            },
            _ => {},
        }
        proof {
            assert(result@ =~= before + segment_text(views[i as int]));
            assert(views.take(i + 1).drop_last() =~= views.take(i as int));
        }
        i += 1;
    }
    assert(views.take(i as int) =~= views);
    if is_blank(result.as_str()) {
        Err(TranslationError::InvalidResponse("no translation segments returned".to_owned()))
    } else {
        Ok(result)
    }
}

/// Reads the translated text out of a reply body.
///
/// The body is handed to the JSON parser; what the parser makes of it decides
/// the result as [`translation_of_parsed`] says.
pub fn parse_unofficial_google_response(body: &str) -> (out: Result<String, TranslationError>)
    ensures
        outcome_view(out) == translation_of_parsed(json_parse(body@)),
{
    match parse_json(body) {
        Ok(document) => extract_translation(&document),
        Err(reason) => Err(TranslationError::InvalidResponse(reason)),
    }
}

/// The decimal digit for a value below ten.
pub open spec fn digit_char(value: int) -> char {
    (0x30 + value) as u8 as char
}

/// The decimal form of `n`.
pub open spec fn decimal(n: nat) -> Seq<char>
    decreases n,
{
    if n < 10 {
        seq![digit_char(n as int)]
    } else {
        decimal(n / 10).push(digit_char((n % 10) as int))
    }
}

/// Appends the decimal form of `n` to `out`.
pub fn push_decimal(out: &mut String, n: u64)
    ensures
        final(out)@ == old(out)@ + decimal(n as nat),
    decreases n,
{
    if n >= 10 {
        push_decimal(out, n / 10);
    }
    let digit: u8 = (n % 10) as u8;
    out.push((0x30 + digit) as char);
    assert(out@ =~= old(out)@ + decimal(n as nat));
}

/// Whether a reply body is a web page or asks for a captcha rather than
/// carrying a translation: it holds `<html` or `captcha`, in any letter case.
pub open spec fn looks_blocked(body: Seq<char>) -> bool {
    contains_run(ascii_lowercase(body), "<html"@) || contains_run(
        ascii_lowercase(body),
        "captcha"@,
    )
}

/// What a reply with the given status and body amounts to, given what the
/// JSON parser made of the body.
pub open spec fn classified(status: u16, body: Seq<char>, parsed: Result<JsonView, Seq<char>>) -> Result<
    Seq<char>,
    Failure,
> {
    if status == 429 {
        Err(Failure::RateLimited)
    } else if status == 403 {
        Err(Failure::Blocked)
    } else if !(200 <= status < 300) {
        Err(Failure::InvalidResponse("HTTP "@ + decimal(status as nat)))
    } else if trim(body).len() == 0 {
        Err(Failure::InvalidResponse("empty response body"@))
    } else if looks_blocked(body) {
        Err(Failure::Blocked)
    } else {
        translation_of_parsed(parsed)
    }
}

/// Classifies a reply by its status and body: the translated text, or the
/// kind of failure. Only a reply with a success status, a body that is not
/// blank and shows no sign of a block is handed to the JSON parser.
pub fn handle_response(status: u16, body: &str) -> (out: Result<String, TranslationError>)
    ensures
        outcome_view(out) == classified(status, body@, json_parse(body@)),
{
    if status == 429 {
        return Err(TranslationError::RateLimited);
    }
    if status == 403 {
        return Err(TranslationError::Blocked);
    }
    if !(200 <= status && status < 300) {
        let mut reason = "HTTP ".to_owned();
        push_decimal(&mut reason, status as u64);
        return Err(TranslationError::InvalidResponse(reason));
    }
    if is_blank(body) {
        return Err(TranslationError::InvalidResponse("empty response body".to_owned()));
    }
    let lower = to_ascii_lowercase(&chars_of(body));
    if contains_chars(&lower, &chars_of("<html")) || contains_chars(&lower, &chars_of("captcha")) {
        return Err(TranslationError::Blocked);
    }
    parse_unofficial_google_response(body)
}

} // verus!
