//! Replies to requests.

use axum::response::IntoResponse;
use http::{HeaderMap, HeaderValue};
use vstd::prelude::*;
use vstd::utf8::encode_utf8;

use crate::headers::{header_fields, is_header_text, no_headers, HeaderFields};

verus! {

/// The body of a reply.
#[derive(Debug)]
pub enum ReplyBody {
    Empty,
    Text(String),
    Bytes(Vec<u8>),
}

/// A reply: a status code, headers and a body.
#[derive(Debug)]
pub struct Reply {
    pub status: u16,
    pub headers: HeaderMap<HeaderValue>,
    pub body: ReplyBody,
}

/// What a `ReplyBody` holds.
pub enum BodyView {
    Empty,
    Text(Seq<char>),
    Bytes(Seq<u8>),
}

/// What a `Reply` holds.
pub struct ReplyView {
    pub status: u16,
    pub headers: HeaderFields,
    pub body: BodyView,
}

impl View for ReplyBody {
    type V = BodyView;

    open spec fn view(&self) -> BodyView {
        match self {
            ReplyBody::Empty => BodyView::Empty,
            ReplyBody::Text(t) => BodyView::Text(t@),
            ReplyBody::Bytes(b) => BodyView::Bytes(b@),
        }
    }
}

impl View for Reply {
    type V = ReplyView;

    open spec fn view(&self) -> ReplyView {
        ReplyView { status: self.status, headers: header_fields(self.headers), body: self.body@ }
    }
}

/// A reply of a status code and a text, without headers of its own.
pub open spec fn text_reply_view(status: u16, text: Seq<char>) -> ReplyView {
    ReplyView { status, headers: HeaderFields::empty(), body: BodyView::Text(text) }
}

/// The reply where there is nothing for a request.
pub open spec fn not_found_view() -> ReplyView {
    text_reply_view(404, "not found"@)
}

/// The reply that moves a request to another place for good.
pub open spec fn redirect_view(location: Seq<char>) -> ReplyView {
    ReplyView {
        status: 308,
        headers: HeaderFields::empty().insert("location"@, seq![encode_utf8(location)]),
        body: BodyView::Empty,
    }
}

/// `Redirect::permanent` of axum, turned into a response: the status is 308, and the location
/// is the only header. The body, which is dropped here, is empty.
#[verifier::external_body]
fn permanent_redirect(uri: &str) -> (r: (u16, HeaderMap<HeaderValue>))
    requires
        is_header_text(uri@),
    ensures
        r.0 == 308,
        header_fields(r.1) == HeaderFields::empty().insert("location"@, seq![encode_utf8(uri@)]),
{
    let (parts, _) = axum::response::Redirect::permanent(uri).into_response().into_parts();
    (parts.status.as_u16(), parts.headers)
}

impl Reply {
    /// A reply of a status code and a text.
    pub fn text(status: u16, text: String) -> (r: Reply)
        ensures
            r@ == text_reply_view(status, text@),
    {
        Reply { status, headers: no_headers(), body: ReplyBody::Text(text) }
    }

    /// The reply where there is nothing for a request.
    pub fn not_found() -> (r: Reply)
        ensures
            r@ == not_found_view(),
    {
        Reply::text(404, "not found".to_owned())
    }

    /// The reply to a request that failed, with the text of the error.
    pub fn failure(error: String) -> (r: Reply)
        ensures
            r@ == text_reply_view(500, error@),
    {
        Reply::text(500, error)
    }

    /// The reply that moves a request to `location` for good.
    pub fn redirect(location: &str) -> (r: Reply)
        requires
            is_header_text(location@),
        ensures
            r@ == redirect_view(location@),
    {
        let (status, headers) = permanent_redirect(location);
        Reply { status, headers, body: ReplyBody::Empty }
    }
}

} // verus!
