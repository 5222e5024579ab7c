//! The logic of a Model Context Protocol (MCP) server for the unofficial Grindr API,
//! verified with Verus.
//!
//! The tools of the server are functions from their arguments to the request that has to
//! be made, and from the response to the result ([`tools`]). They rest on geohashes
//! ([`geohash`], [`location`]), on the discovery of the API from its OpenAPI document
//! ([`openapi`]), on queries ([`query`]), on the exchange of commands over the realtime
//! websocket ([`ws`]), and on what is kept on disk ([`state`]). The requests themselves,
//! the websocket and the files are the business of the program around this library.
pub mod document;
pub mod double;
pub mod geohash;
pub mod json;
pub mod location;
pub mod openapi;
pub mod openapi_laws;
pub mod query;
pub mod reply;
pub mod state;
pub mod text;
pub mod text_laws;
pub mod tools;
pub mod ws;
