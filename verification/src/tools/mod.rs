//! The tools, in two groups:
//!
//! - [`generic`]: API discovery and the generic request.
//! - [`endpoints`]: tools that each wrap a specific endpoint (session, messaging,
//!   location, grid, profiles).
//!
//! A tool is a function from its arguments to the request that has to be made, and
//! one from the response to the result.
use vstd::prelude::*;

use crate::json::{Json, JsonView};

pub mod endpoints;
pub mod generic;
pub mod laws;

verus! {

/// A request to the API.
#[derive(Debug, PartialEq)]
pub struct ApiRequest {
    /// The HTTP method, e.g. `GET`.
    pub method: String,
    /// The path and query, e.g. `/v4/inbox?page=1`.
    pub path: String,
    /// The JSON body, where there is one.
    pub body: Option<Json>,
}

/// What a request asks for.
pub struct RequestView {
    pub method: Seq<char>,
    pub path: Seq<char>,
    pub body: Option<JsonView>,
}

impl View for ApiRequest {
    type V = RequestView;

    open spec fn view(&self) -> RequestView {
        RequestView {
            method: self.method@,
            path: self.path@,
            body: match self.body {
                Some(body) => Some(body@),
                None => None,
            },
        }
    }
}

}
