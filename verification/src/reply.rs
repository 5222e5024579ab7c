//! What a tool hands back: the text of a result, or an error.
use vstd::prelude::*;
use vstd::utf8::{decode_utf8, encode_utf8, valid_utf8};

use crate::document::{is_simple, parsed_json, pretty_json};
use crate::json::{number_text, without_members, Json, JsonObject, JsonView};
use crate::text::decimal;

verus! {

/// Why a tool did not do what it was asked to.
#[derive(Debug, PartialEq)]
pub enum ToolError {
    /// The arguments do not make sense.
    InvalidParams(String),
    /// The arguments make sense, and something else went wrong.
    Internal(String),
}

/// What an error says.
pub enum ToolErrorView {
    InvalidParams(Seq<char>),
    Internal(Seq<char>),
}

impl View for ToolError {
    type V = ToolErrorView;

    open spec fn view(&self) -> ToolErrorView {
        match self {
            ToolError::InvalidParams(message) => ToolErrorView::InvalidParams(message@),
            ToolError::Internal(message) => ToolErrorView::Internal(message@),
        }
    }
}

/// The text in `bytes`, with a replacement character for what is not UTF-8, as
/// `String::from_utf8_lossy` gives it.
pub uninterp spec fn lossy_text(bytes: Seq<u8>) -> Seq<char>;

/// `String::from_utf8_lossy`: the text depends on the bytes alone, and is what they
/// encode where they are valid UTF-8.
#[verifier::external_body]
fn to_lossy_text(bytes: &[u8]) -> (r: String)
    ensures
        r@ == lossy_text(bytes@),
        valid_utf8(bytes@) ==> r@ == decode_utf8(bytes@),
{
    String::from_utf8_lossy(bytes).into_owned()
}

/// `serde_json::Number::from` of a `u64`: the number is displayed in decimal
/// notation.
#[verifier::external_body]
fn number_from_u64(n: u64) -> (r: serde_json::Number)
    ensures
        number_text(r) == decimal(n as int),
{
    serde_json::Number::from(n)
}

/// `serde_json::Number::from` of an `i64`: the number is displayed in decimal
/// notation.
#[verifier::external_body]
fn number_from_i64(n: i64) -> (r: serde_json::Number)
    ensures
        number_text(r) == decimal(n as int),
{
    serde_json::Number::from(n)
}

/// A whole number, as JSON says it.
pub open spec fn number(n: int) -> JsonView {
    JsonView::Number(decimal(n))
}

impl Json {
    /// A number that is not negative.
    pub fn unsigned(n: u64) -> (r: Json)
        ensures
            r@ == number(n as int),
    {
        Json::Number(number_from_u64(n))
    }

    /// A whole number.
    pub fn signed(n: i64) -> (r: Json)
        ensures
            r@ == number(n as int),
    {
        Json::Number(number_from_i64(n))
    }
}

/// What the body of a response says: the JSON in it, or else its text.
pub open spec fn body_tree(bytes: Seq<u8>) -> JsonView {
    match parsed_json(bytes) {
        Some(value) => value,
        None => JsonView::Str(lossy_text(bytes)),
    }
}

/// The body of a response: the JSON that was read from it, or else its text.
pub fn body_or_text(parsed: Option<Json>, text: String) -> (r: Json)
    ensures
        r@ == match parsed {
            Some(value) => value@,
            None => JsonView::Str(text@),
        },
{
    match parsed {
        Some(value) => value,
        None => Json::Str(text),
    }
}

/// Parses the body of a response as JSON, falling back to a text string.
pub fn parse_body(bytes: &[u8]) -> (r: Json)
    ensures
        r@ == body_tree(bytes@),
        parsed_json(bytes@) is None && valid_utf8(bytes@) ==> r@ == JsonView::Str(
            decode_utf8(bytes@),
        ),
{
    match Json::parse(bytes) {
        Ok(value) => body_or_text(Some(value), String::new()),
        Err(_) => body_or_text(None, to_lossy_text(bytes)),
    }
}

/// What stands in the place of a result that cannot be written.
pub open spec fn failure_text(reason: Seq<char>) -> Seq<char> {
    "<failed to serialize result: "@ + reason + ">"@
}

/// The text of a result: what was written, or why nothing could be written.
pub fn rendered(written: Result<String, String>) -> (r: String)
    ensures
        r@ == match written {
            Ok(text) => text@,
            Err(reason) => failure_text(reason@),
        },
{
    match written {
        Ok(text) => text,
        Err(reason) => {
            let mut r = "<failed to serialize result: ".to_owned();
            r.append(reason.as_str());
            r.append(">");
            r
        },
    }
}

/// Renders a value as a single text block of pretty-printed JSON, from which a simple value
/// can be read back.
pub fn json_result(value: &Json) -> (r: String)
    ensures
        r@ == pretty_json(value@),
        is_simple(value@, 127) ==> parsed_json(encode_utf8(r@)) == Some(value@),
{
    match value.to_pretty() {
        Ok(text) => rendered(Ok(text)),
        Err(e) => rendered(Err(e.to_string())),
    }
}

/// The error for an argument that is no good: what is wrong with it, and the argument as
/// it is shown.
pub fn refused(what: &str, shown: &str) -> (r: ToolError)
    ensures
        r@ == ToolErrorView::InvalidParams(what@ + shown@),
{
    ToolError::InvalidParams(what.to_owned().concat(shown))
}

/// The result of a request: its status, and the body of the response.
pub open spec fn status_and_body(status: u16, body: JsonView) -> JsonView {
    JsonView::Object(
        without_members().insert("status"@, number(status as int)).insert("body"@, body),
    )
}

/// Puts the status and the body of a response together.
pub fn response_result(status: u16, body: Json) -> (r: Json)
    ensures
        r@ == status_and_body(status, body@),
{
    let mut out = JsonObject::new();
    out.insert("status".to_owned(), Json::unsigned(status as u64));
    out.insert("body".to_owned(), body);
    Json::Object(out)
}

/// The error of a request that got no response.
pub fn request_failed(reason: &str) -> (r: ToolError)
    ensures
        r@ == ToolErrorView::Internal("request failed: "@ + reason@),
{
    ToolError::Internal("request failed: ".to_owned().concat(reason))
}

/// The body of a response is the JSON that was read from it, and otherwise its text.
pub proof fn a_body_is_told(parsed: Option<Json>, text: String, bytes: &[u8], r: Json)
    ensures
        call_ensures(body_or_text, (parsed, text), r) ==> (parsed matches Some(value) ==> r@
            == value@),
        call_ensures(body_or_text, (parsed, text), r) && parsed is None ==> r@ == JsonView::Str(
            text@,
        ),
        call_ensures(parse_body, (bytes,), r) ==> (parsed_json(bytes@) matches Some(value) ==> r@
            == value),
        call_ensures(parse_body, (bytes,), r) && parsed_json(bytes@) is None ==> r@
            == JsonView::Str(lossy_text(bytes@)),
{
}

/// A result is told by the text that was written, and otherwise by the reason why none was.
pub proof fn a_result_is_told(text: String, reason: String, value: &Json, r: String)
    ensures
        call_ensures(rendered, (Ok(text),), r) ==> r@ == text@,
        call_ensures(rendered, (Err(reason),), r) ==> r@ == "<failed to serialize result: "@
            + reason@ + ">"@,
        call_ensures(json_result, (value,), r) ==> r@ == pretty_json(value@),
{
}

/// What is refused is refused for the argument, and a request without a response is a failure
/// of the server.
pub proof fn an_error_is_told(what: &str, shown: &str, r: ToolError)
    ensures
        call_ensures(refused, (what, shown), r) ==> r@ == ToolErrorView::InvalidParams(
            what@ + shown@,
        ),
        call_ensures(request_failed, (shown,), r) ==> r@ == ToolErrorView::Internal(
            "request failed: "@ + shown@,
        ),
{
}

}
