//! The HTTP vocabulary: request methods and response statuses, with the
//! fixed status -> (code, reason phrase) table and method-token parsing.
use vstd::prelude::*;

use crate::text::bytes_eq;

verus! {

/// The request methods a request line may carry.
#[derive(Clone, Copy, PartialEq, Eq, Structural, Debug)]
pub enum Method {
    Options,
    Head,
    Get,
    Post,
    Patch,
    Put,
    Delete,
}

/// The statuses a response can carry.
#[derive(Clone, Copy, PartialEq, Eq, Structural, Debug)]
pub enum Status {
    Okay,
    Found,
    BadRequest,
    NotFound,
    MethodNotAllowed,
    RequestTimeout,
    InternalServerError,
}

/// The numeric code of each status.
pub open spec fn spec_code(s: Status) -> int {
    match s {
        Status::Okay => 200,
        Status::Found => 302,
        Status::BadRequest => 400,
        Status::NotFound => 404,
        Status::MethodNotAllowed => 405,
        Status::RequestTimeout => 408,
        Status::InternalServerError => 500,
    }
}

/// The reason phrase of each status.
pub open spec fn spec_text(s: Status) -> Seq<char> {
    match s {
        Status::Okay => "OK"@,
        Status::Found => "Found"@,
        Status::BadRequest => "Bad Request"@,
        Status::NotFound => "Not Found"@,
        Status::MethodNotAllowed => "Method Not Allowed"@,
        Status::RequestTimeout => "Request Timeout"@,
        Status::InternalServerError => "Internal Server Error"@,
    }
}

impl Status {
    /// The numeric code of this status.
    pub fn code(&self) -> (c: u16)
        ensures
            c == spec_code(*self),
    {
        match self {
            Status::Okay => 200,
            Status::Found => 302,
            Status::BadRequest => 400,
            Status::NotFound => 404,
            Status::MethodNotAllowed => 405,
            Status::RequestTimeout => 408,
            Status::InternalServerError => 500,
        }
    }

    /// The reason phrase of this status.
    pub fn text(&self) -> (t: &'static str)
        ensures
            t@ == spec_text(*self),
    {
        match self {
            Status::Okay => "OK",
            Status::Found => "Found",
            Status::BadRequest => "Bad Request",
            Status::NotFound => "Not Found",
            Status::MethodNotAllowed => "Method Not Allowed",
            Status::RequestTimeout => "Request Timeout",
            Status::InternalServerError => "Internal Server Error",
        }
    }
}

/// The uppercase token that names a method on the wire.
pub open spec fn spec_method_token(m: Method) -> Seq<char> {
    match m {
        Method::Options => "OPTIONS"@,
        Method::Head => "HEAD"@,
        Method::Get => "GET"@,
        Method::Post => "POST"@,
        Method::Patch => "PATCH"@,
        Method::Put => "PUT"@,
        Method::Delete => "DELETE"@,
    }
}

/// Parsing a raw token from the request line: the token must be,
/// byte for byte, the UTF-8 form of one of the seven method names;
/// every other token is rejected.
pub open spec fn spec_parse_method(token: Seq<u8>) -> Option<Method> {
    if token == vstd::utf8::encode_utf8(spec_method_token(Method::Options)) {
        Some(Method::Options)
    } else if token == vstd::utf8::encode_utf8(spec_method_token(Method::Head)) {
        Some(Method::Head)
    } else if token == vstd::utf8::encode_utf8(spec_method_token(Method::Get)) {
        Some(Method::Get)
    } else if token == vstd::utf8::encode_utf8(spec_method_token(Method::Post)) {
        Some(Method::Post)
    } else if token == vstd::utf8::encode_utf8(spec_method_token(Method::Patch)) {
        Some(Method::Patch)
    } else if token == vstd::utf8::encode_utf8(spec_method_token(Method::Put)) {
        Some(Method::Put)
    } else if token == vstd::utf8::encode_utf8(spec_method_token(Method::Delete)) {
        Some(Method::Delete)
    } else {
        None
    }
}

impl Method {
    /// Parse a method from the raw bytes of the first request-line token.
    pub fn parse_token(token: &[u8]) -> (r: Option<Method>)
        ensures
            r == spec_parse_method(token@),
    {
        if bytes_eq(token, "OPTIONS".as_bytes()) {
            Some(Method::Options)
        } else if bytes_eq(token, "HEAD".as_bytes()) {
            Some(Method::Head)
        } else if bytes_eq(token, "GET".as_bytes()) {
            Some(Method::Get)
        } else if bytes_eq(token, "POST".as_bytes()) {
            Some(Method::Post)
        } else if bytes_eq(token, "PATCH".as_bytes()) {
            Some(Method::Patch)
        } else if bytes_eq(token, "PUT".as_bytes()) {
            Some(Method::Put)
        } else if bytes_eq(token, "DELETE".as_bytes()) {
            Some(Method::Delete)
        } else {
            None
        }
    }
}

} // verus!
