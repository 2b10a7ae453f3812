//! The request model that the templating engine rewrites: URL and method,
//! optional metadata, header and query-parameter lists, and one of three
//! body encodings.

use vstd::prelude::*;

use crate::keyvalue::KeyValue;

verus! {

/// Free-form information about a request definition.
pub struct Metadata {
    pub description: String,
}

/// The HTTP method of a request.
pub enum Method {
    GET,
    POST,
    PUT,
    DELETE,
    HEAD,
    OPTIONS,
    PATCH,
    TRACE,
}

/// The target of a request: where it goes and with which method.
pub struct Request {
    pub url: String,
    pub method: Method,
}

/// The query parameters of a request.
pub struct Query {
    pub params: Vec<KeyValue>,
}

/// The body of a request: plain text, a JSON document held as its source
/// text, or a URL-encoded parameter list.
pub enum Content {
    Text(String),
    Json(String),
    UrlEncoded(Vec<KeyValue>),
}

/// The headers of a request.
pub struct Headers {
    pub headers: Vec<KeyValue>,
}

/// One saved request: everything needed to dispatch it once all variables
/// are bound.
pub struct RequestDefinition {
    pub metadata: Option<Metadata>,
    pub request: Request,
    pub query: Option<Query>,
    pub body: Option<Content>,
    pub headers: Option<Headers>,
}

/// The message kept for a definition file that could not be parsed.
pub struct ParseError {
    pub message: String,
}

} // verus!
