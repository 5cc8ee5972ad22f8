//! Responses built from plain values: a status code, an optional content type
//! and a text body.
use vstd::prelude::*;

use crate::text;

verus! {

/// An HTTP response: status code, `Content-Type` header (if any) and body.
#[derive(Debug)]
pub struct Reply {
    pub status: u16,
    pub content_type: Option<String>,
    pub body: String,
}

impl Reply {
    /// The status code.
    pub fn status(&self) -> (r: u16)
        ensures
            r == self.status,
    {
        self.status
    }
}

/// A `200 OK` response with a plain-text body.
pub fn text(body: String) -> (r: Reply)
    ensures
        r.status == 200,
        r.content_type matches Some(t) && t@ == "text/plain; charset=utf-8"@,
        r.body@ == body@,
{
    Reply { status: 200, content_type: Some(text::to_owned_string("text/plain; charset=utf-8")), body }
}

/// A `200 OK` response with an HTML body.
pub fn html(body: String) -> (r: Reply)
    ensures
        r.status == 200,
        r.content_type matches Some(t) && t@ == "text/html"@,
        r.body@ == body@,
{
    Reply { status: 200, content_type: Some(text::to_owned_string("text/html")), body }
}

/// A `200 OK` response whose body is an already serialized JSON document.
pub fn json(serialized: String) -> (r: Reply)
    ensures
        r.status == 200,
        r.content_type matches Some(t) && t@ == "application/json"@,
        r.body@ == serialized@,
{
    Reply { status: 200, content_type: Some(text::to_owned_string("application/json")), body: serialized }
}

/// A `404 Not Found` response.
pub fn not_found() -> (r: Reply)
    ensures
        r.status == 404,
        r.content_type is None,
        r.body@ == "404 Not Found"@,
{
    Reply { status: 404, content_type: None, body: text::to_owned_string("404 Not Found") }
}

} // verus!
