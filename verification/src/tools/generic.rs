//! Generic discovery and request tools.
//!
//! These are endpoint-agnostic: [`request`] asks for an arbitrary path, and the
//! discovery tools read the OpenAPI document so that a caller can find what to ask
//! for.
use vstd::prelude::*;
use vstd::utf8::is_ascii_chars;

use crate::document::compact_json;
use crate::json::{array_member, trees, without_members, Json, JsonObject, JsonView};
use crate::openapi::{describe_endpoint, description, list_endpoints, list_tags, listing, or_else};
use crate::reply::{number, ToolError, ToolErrorView};
use crate::text::{ascii_raised, quoted, text_of, to_quoted, to_uppercase, uppercase};
use crate::tools::{ApiRequest, RequestView};

verus! {

/// The arguments of a generic request.
#[derive(Debug, PartialEq)]
pub struct RequestArgs {
    /// HTTP method, e.g. "GET", "POST", "PUT", "DELETE".
    pub method: String,
    /// Absolute API path beginning with '/', e.g. "/v3/me/profile".
    pub path: String,
    /// Optional JSON request body.
    pub body: Option<Json>,
}

/// The request that the arguments ask for.
pub open spec fn request_asked_for(args: RequestArgs) -> RequestView {
    RequestView {
        method: uppercase(args.method@),
        path: args.path@,
        body: match args.body {
            Some(body) => Some(body@),
            None => None,
        },
    }
}

/// The request that the arguments ask for.
pub fn request(args: RequestArgs) -> (r: ApiRequest)
    ensures
        r@ == request_asked_for(args),
        is_ascii_chars(args.method@) ==> r@.method == ascii_raised(args.method@),
{
    ApiRequest { method: to_uppercase(args.method.as_str()), path: args.path, body: args.body }
}

/// The error of a request whose method is none.
pub fn invalid_method(reason: &str) -> (r: ToolError)
    ensures
        r@ == ToolErrorView::InvalidParams("invalid HTTP method: "@ + reason@),
{
    ToolError::InvalidParams("invalid HTTP method: ".to_owned().concat(reason))
}

/// A list of the endpoints that pass the filters, and how many there are.
pub open spec fn endpoints_view(
    doc: JsonView,
    tag: Option<Seq<char>>,
    search: Option<Seq<char>>,
) -> JsonView {
    JsonView::Object(
        without_members().insert("count"@, number(listing(doc, tag, search).len() as int)).insert(
            "endpoints"@,
            JsonView::Array(listing(doc, tag, search)),
        ),
    )
}

/// A list of the endpoints that pass the filters, and how many there are.
pub fn endpoints_result(doc: &Json, tag: Option<&str>, search: Option<&str>) -> (r: Json)
    ensures
        r@ == endpoints_view(doc@, text_of(tag), text_of(search)),
{
    let found = list_endpoints(doc, tag, search);
    let count = found.len();
    let list = Json::Array(found);
    assert(list@->Array_0 =~= trees(found@));
    let mut out = JsonObject::new();
    out.insert("count".to_owned(), Json::unsigned(count as u64));
    out.insert("endpoints".to_owned(), list);
    Json::Object(out)
}

/// How `{:?}` shows a text that may be absent.
pub open spec fn quoted_option(s: Option<Seq<char>>) -> Seq<char> {
    match s {
        Some(s) => "Some("@ + quoted(s) + ")"@,
        None => "None"@,
    }
}

/// The error for a path of which the document says nothing; the path and the method are
/// given as they are shown.
pub fn no_operation(path: &str, method: Option<&str>) -> (r: ToolError)
    ensures
        r@ == ToolErrorView::InvalidParams(
            "no operation found for path "@ + path@ + " (method "@ + (match text_of(method) {
                Some(method) => "Some("@ + method + ")"@,
                None => "None"@,
            }) + ")"@,
        ),
{
    let mut message = "no operation found for path ".to_owned();
    message.append(path);
    message.append(" (method ");
    let ghost before = message@;
    match method {
        Some(method) => {
            message.append("Some(");
            message.append(method);
            message.append(")");
            assert(message@ =~= before + ("Some("@ + method@ + ")"@));
        },
        None => {
            message.append("None");
        },
    }
    message.append(")");
    ToolError::InvalidParams(message)
}

/// What the document says of a path, or that it says nothing of it.
pub fn description_result(doc: &Json, path: &str, method: Option<&str>) -> (r: Result<
    Json,
    ToolError,
>)
    ensures
        match description(doc@, path@, text_of(method)) {
            Some(said) => r matches Ok(v) && v@ == said,
            None => r matches Err(e) && e@ == ToolErrorView::InvalidParams(
                "no operation found for path "@ + quoted(path@) + " (method "@ + quoted_option(
                    text_of(method),
                ) + ")"@,
            ),
        },
{
    match describe_endpoint(doc, path, method) {
        Some(v) => Ok(v),
        None => {
            let path = to_quoted(path);
            match method {
                Some(method) => Err(
                    no_operation(path.as_str(), Some(to_quoted(method).as_str())),
                ),
                None => Err(no_operation(path.as_str(), None)),
            }
        },
    }
}

/// The tags of the document.
pub fn tags_result(doc: &Json) -> (r: Json)
    ensures
        r@ == JsonView::Object(
            without_members().insert(
                "tags"@,
                JsonView::Array(
                    or_else(array_member(doc@, "tags"@), Seq::empty()),
                ),
            ),
        ),
{
    let tags = list_tags(doc);
    let list = Json::Array(tags);
    assert(list@->Array_0 =~= trees(tags@));
    let mut out = JsonObject::new();
    out.insert("tags".to_owned(), list);
    Json::Object(out)
}

/// What a client is told about the server, before the description of the API.
pub const INSTRUCTIONS: &'static str = "MCP server for the unofficial Grindr API (transport: grindr.rs, which emulates the Android app's TLS/HTTP2 fingerprint).\n\nWorkflow:\n1. Call grindr_login(email, password) once (or grindr_session_status to check an existing persisted session).\n2. Discover endpoints with grindr_list_tags, grindr_list_endpoints and grindr_describe_endpoint.\n3. Call grindr_request(method, path, body?) to hit any endpoint.\n\nFor educational purposes only; unofficial and not affiliated with Grindr.\n\nBundled spec: ";

/// What a client is told about the server: `info` is the description of the API.
pub fn instructions(info: &Json) -> (r: String)
    ensures
        r@ == INSTRUCTIONS@ + compact_json(info@),
{
    INSTRUCTIONS.to_owned().concat(info.to_compact().as_str())
}

}
