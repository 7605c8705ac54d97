//! Which replies are kept for later requests, and for how long.

use http::{HeaderMap, HeaderValue};
use vstd::prelude::*;

use crate::headers::{copy_headers, header_fields, HeaderFields};
use crate::reply::{text_reply_view, BodyView, Reply, ReplyBody, ReplyView};

verus! {

/// The largest body that is kept, in bytes.
pub const CACHE_LIMIT: usize = 262144;

/// The number of replies that are kept at most.
pub const CACHE_CAPACITY: u64 = 10000;

/// A reply that is kept for `ttl` seconds.
pub struct CacheEntry {
    pub ttl: u64,
    pub status: u16,
    pub headers: HeaderMap<HeaderValue>,
    pub body: Vec<u8>,
}

/// A reply as it was made for a request.
pub struct Fetched {
    pub status: u16,
    pub headers: HeaderMap<HeaderValue>,
    pub body: Vec<u8>,
}

/// What came of the last step towards a reply.
pub enum CacheEvent {
    /// There is an entry under the key of the request.
    Found(CacheEntry),
    /// There is no entry under the key of the request.
    Missing,
    /// The reply was made.
    Fetched(Fetched),
    /// The reply could not be made, for this reason.
    Failed(String),
}

/// What is to be done next.
pub enum CacheStep {
    /// Make the reply.
    Fetch,
    /// Send the reply.
    Reply(Reply),
    /// Keep the entry under the key of the request, and send the reply.
    Store(CacheEntry, Reply),
}

/// What a `CacheEntry` holds.
pub struct CacheEntryView {
    pub ttl: u64,
    pub status: u16,
    pub headers: HeaderFields,
    pub body: Seq<u8>,
}

/// What a `Fetched` holds.
pub struct FetchedView {
    pub status: u16,
    pub headers: HeaderFields,
    pub body: Seq<u8>,
}

/// What a `CacheEvent` holds.
pub enum CacheEventView {
    Found(CacheEntryView),
    Missing,
    Fetched(FetchedView),
    Failed(Seq<char>),
}

/// What a `CacheStep` holds.
pub enum CacheStepView {
    Fetch,
    Reply(ReplyView),
    Store(CacheEntryView, ReplyView),
}

impl View for CacheEntry {
    type V = CacheEntryView;

    open spec fn view(&self) -> CacheEntryView {
        CacheEntryView {
            ttl: self.ttl,
            status: self.status,
            headers: header_fields(self.headers),
            body: self.body@,
        }
    }
}

impl View for Fetched {
    type V = FetchedView;

    open spec fn view(&self) -> FetchedView {
        FetchedView {
            status: self.status,
            headers: header_fields(self.headers),
            body: self.body@,
        }
    }
}

impl View for CacheEvent {
    type V = CacheEventView;

    open spec fn view(&self) -> CacheEventView {
        match self {
            CacheEvent::Found(e) => CacheEventView::Found(e@),
            CacheEvent::Missing => CacheEventView::Missing,
            CacheEvent::Fetched(f) => CacheEventView::Fetched(f@),
            CacheEvent::Failed(e) => CacheEventView::Failed(e@),
        }
    }
}

impl View for CacheStep {
    type V = CacheStepView;

    open spec fn view(&self) -> CacheStepView {
        match self {
            CacheStep::Fetch => CacheStepView::Fetch,
            CacheStep::Reply(r) => CacheStepView::Reply(r@),
            CacheStep::Store(e, r) => CacheStepView::Store(e@, r@),
        }
    }
}

/// A reply of a status code, headers and bytes.
pub open spec fn bytes_reply_view(
    status: u16,
    headers: HeaderFields,
    body: Seq<u8>,
) -> ReplyView {
    ReplyView { status, headers, body: BodyView::Bytes(body) }
}

/// What is done next for a reply that is to be kept for `ttl` seconds.
pub open spec fn cache_step(ttl: u64, event: CacheEventView) -> CacheStepView {
    match event {
        CacheEventView::Found(e) => CacheStepView::Reply(
            bytes_reply_view(e.status, e.headers, e.body),
        ),
        CacheEventView::Missing => CacheStepView::Fetch,
        CacheEventView::Fetched(f) => {
            let reply = bytes_reply_view(f.status, f.headers, f.body);
            if f.body.len() <= CACHE_LIMIT {
                CacheStepView::Store(
                    CacheEntryView { ttl, status: f.status, headers: f.headers, body: f.body },
                    reply,
                )
            } else {
                CacheStepView::Reply(reply)
            }
        },
        CacheEventView::Failed(e) => CacheStepView::Reply(text_reply_view(500, e)),
    }
}

/// For how many seconds an entry is kept.
pub open spec fn kept_for(entry: CacheEntryView) -> Option<u64> {
    Some(entry.ttl)
}

/// How long entries are kept.
pub struct MyExpiry;

impl MyExpiry {
    /// The seconds for which a new entry is kept.
    pub fn expire_after_create(&self, value: &CacheEntry) -> (r: Option<u64>)
        ensures
            r == kept_for(value@),
    {
        Some(value.ttl)
    }
}

/// Copies bytes.
fn copy_bytes(bytes: &Vec<u8>) -> (r: Vec<u8>)
    ensures
        r@ == bytes@,
{
    let mut r: Vec<u8> = Vec::with_capacity(bytes.len());
    let mut i: usize = 0;
    while i < bytes.len()
        invariant
            i <= bytes@.len(),
            r@ == bytes@.take(i as int),
        decreases bytes@.len() - i,
    {
        r.push(bytes[i]);
        i += 1;
    }
    assert(bytes@.take(i as int) == bytes@);
    r
}

/// Decides on the next step towards a reply that is to be kept for `cache` seconds.
pub fn fetch_from_cache(cache: u64, event: CacheEvent) -> (r: CacheStep)
    requires
        cache > 0,
    ensures
        r@ == cache_step(cache, event@),
{
    match event {
        CacheEvent::Found(e) => CacheStep::Reply(
            Reply { status: e.status, headers: e.headers, body: ReplyBody::Bytes(e.body) },
        ),
        CacheEvent::Missing => CacheStep::Fetch,
        CacheEvent::Fetched(f) => {
            if f.body.len() <= CACHE_LIMIT {
                let entry = CacheEntry {
                    ttl: cache,
                    status: f.status,
                    headers: copy_headers(&f.headers),
                    body: copy_bytes(&f.body),
                };
                let reply = Reply {
                    status: f.status,
                    headers: f.headers,
                    body: ReplyBody::Bytes(f.body),
                };
                CacheStep::Store(entry, reply)
            } else {
                CacheStep::Reply(
                    Reply { status: f.status, headers: f.headers, body: ReplyBody::Bytes(f.body) },
                )
            }
        },
        CacheEvent::Failed(e) => CacheStep::Reply(Reply::failure(e)),
    }
}

/// What is kept is kept for the time that was asked for, and a later request that finds it gets
/// the reply that the first one got.
pub proof fn law_kept_reply_is_repeated(ttl: u64, event: CacheEventView, later: u64)
    ensures
        cache_step(ttl, event) matches CacheStepView::Store(e, r) ==> {
            &&& e.ttl == ttl
            &&& cache_step(later, CacheEventView::Found(e)) == CacheStepView::Reply(r)
        },
{
}

/// Only a reply that was made, with a body within the limit, is kept.
pub proof fn law_only_small_replies_are_kept(ttl: u64, event: CacheEventView)
    ensures
        cache_step(ttl, event) is Store <==> (event matches CacheEventView::Fetched(f)
            && f.body.len() <= CACHE_LIMIT),
{
}

} // verus!
