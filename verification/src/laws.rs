//! What the library does, said of what goes in and what comes out.

use http::{HeaderMap, HeaderValue};
use vstd::prelude::*;
use vstd::utf8::encode_utf8;

use crate::cache::{
    cache_step, kept_for, CacheEntry, CacheEntryView, CacheEvent, CacheEventView, CacheStep,
    CacheStepView, Fetched, FetchedView,
};
use crate::config::{directive_parts, route_matches, routes_of, Config, ConfigRoute, RouteView};
use crate::decimal::{decimal, parse_number};
use crate::files::file_reply_view;
use crate::headers::{
    header_entries, header_fields, is_header_text, is_visible, list_view, values_of,
    visible_text, HeaderFields,
};
use crate::proxy::{
    for_client, for_upstream, forwarded_list, forwarded_value, has_few_names, host_and_port,
    proxy_headers, proxy_headers_given, proxy_outcome, referer_text, relay_step, reply_headers,
    text_list_view, CloseFrame, Message, ProxyError, ProxyErrorView, RelayEvent, RelayStep,
    TCloseFrame, TMessage,
};
use crate::reply::{
    not_found_view, redirect_view, text_reply_view, BodyView, Reply, ReplyBody, ReplyView,
};
use crate::request_context::{
    action_of, directive_fault, directive_step, file_plan, law_user_is_kept,
    lemma_directive_names, mac_parse, modified, modified_or_same, new_authority, new_target,
    path_text, retarget, wake_view, wake_words, with_server, woken_from, Action, ActionView,
    ContextView, Fault, FaultView, FilePlan, FilePlanView, Request, RequestContext, RequestView,
};
use crate::server::{handled, run_directives, run_routes, Progress};
use crate::text::{
    find_last, law_starts_with, lemma_find_last, starts_with, text_of, views, words,
};
use crate::uri::{
    authority_parse, host_of, parts_error, path_of, root_uri, scheme_error, uri_parse, uri_text,
    Authority, AuthorityView, PathAndQuery, PathAndQueryView, Uri, UriView,
};
use crate::url::{parse_url, Url, UrlError, UrlView};

verus! {

/// A view holds what the value holds: the text of each string, the bytes of each vector, and every
/// other field as it is.
pub proof fn law_views_of_texts(
    none: Option<String>,
    url: Url,
    authority: Authority,
    path: PathAndQuery,
    uri: Uri,
)
    ensures
        none is None ==> text_of(none) is None,
        none matches Some(s) ==> text_of(none) == Some(s@),
        url@.scheme == text_of(url.scheme) && url@.authority == text_of(url.authority),
        url@.host == url.host@ && url@.path == url.path@,
        authority@.text == authority.text@ && authority@.host == authority.host@,
        authority@.port == text_of(authority.port),
        path@.text == path.text@ && path@.path == path.path@ && path@.query == text_of(path.query),
        uri@.scheme == text_of(uri.scheme),
        uri.authority is None ==> uri@.authority is None,
        uri.authority matches Some(a) ==> uri@.authority == Some(a@),
        uri.path_and_query is None ==> uri@.path_and_query is None,
        uri.path_and_query matches Some(p) ==> uri@.path_and_query == Some(p@),
{
}

/// The same of configurations and requests.
pub proof fn law_views_of_requests(
    route: ConfigRoute,
    config: Config,
    req: Request,
    ctx: RequestContext,
    i: int,
)
    ensures
        route@.matcher == route.matcher@,
        route@.directive.len() == route.directive@.len(),
        0 <= i < route.directive@.len() ==> route@.directive[i] == route.directive@[i]@,
        routes_of(config).len() == config.routes@.len(),
        0 <= i < config.routes@.len() ==> routes_of(config)[i] == config.routes@[i]@,
        req@.uri == req.uri@,
        req@.headers == header_fields(req.headers),
        req@.entries == header_entries(req.headers),
        ctx@.ws == ctx.ws && ctx@.req == ctx.req@ && ctx@.cache == ctx.cache,
{
}

/// The same of replies and what is kept of them.
pub proof fn law_views_of_replies(
    reply: Reply,
    entry: CacheEntry,
    fetched: Fetched,
    event: CacheEvent,
    step: CacheStep,
)
    ensures
        reply@.status == reply.status && reply@.headers == header_fields(reply.headers),
        reply.body is Empty ==> reply@.body is Empty,
        reply.body matches ReplyBody::Text(t) ==> reply@.body == BodyView::Text(t@),
        reply.body matches ReplyBody::Bytes(b) ==> reply@.body == BodyView::Bytes(b@),
        entry@.ttl == entry.ttl && entry@.status == entry.status,
        entry@.headers == header_fields(entry.headers) && entry@.body == entry.body@,
        fetched@.status == fetched.status,
        fetched@.headers == header_fields(fetched.headers) && fetched@.body == fetched.body@,
        event is Missing ==> event@ is Missing,
        event matches CacheEvent::Found(e) ==> event@ == CacheEventView::Found(e@),
        event matches CacheEvent::Fetched(f) ==> event@ == CacheEventView::Fetched(f@),
        event matches CacheEvent::Failed(t) ==> event@ == CacheEventView::Failed(t@),
        step is Fetch ==> step@ is Fetch,
        step matches CacheStep::Reply(r) ==> step@ == CacheStepView::Reply(r@),
        step matches CacheStep::Store(e, r) ==> step@ == CacheStepView::Store(e@, r@),
{
}

/// The same of what is done with a request.
pub proof fn law_views_of_actions(
    action: Action,
    some: Option<Action>,
    plan: FilePlan,
    fault: Fault,
    error: ProxyError,
)
    ensures
        some is None ==> action_of(some) is None,
        some matches Some(a) ==> action_of(some) == Some(a@),
        action matches Action::Reply(r) ==> action@ == ActionView::Reply(r@),
        action matches Action::ProxyWebSocket(q) ==> action@ == ActionView::ProxyWebSocket(q@),
        action matches Action::Proxy(q) ==> action@ == ActionView::Proxy(q@),
        action matches Action::ProxyCached { req, key, ttl } ==> action@
            == (ActionView::ProxyCached { req: req@, key: key@, ttl }),
        action matches Action::File { root, relative } ==> action@ == (ActionView::File {
            root: root@,
            relative: relative@,
        }),
        action matches Action::Wake { mac, bind, reply } ==> action@ == (ActionView::Wake {
            mac: mac@,
            bind: text_of(bind),
            reply: reply@,
        }),
        plan matches FilePlan::Reply(r) ==> plan@ == FilePlanView::Reply(r@),
        plan matches FilePlan::Serve { root, req } ==> plan@ == (FilePlanView::Serve {
            root: root@,
            req: req@,
        }),
        plan matches FilePlan::Cached { key, ttl } ==> plan@ == (FilePlanView::Cached {
            key: key@,
            ttl,
        }),
        fault is Location ==> fault@ is Location,
        fault matches Fault::Upstream(e) ==> fault@ == FaultView::Upstream(e@),
        error is NoHost ==> error@ is NoHost,
        error is HeaderValue ==> error@ is HeaderValue,
        error is HeaderText ==> error@ is HeaderText,
        error matches ProxyError::Referer(e) ==> error@ == ProxyErrorView::Referer(e@),
        error is TooManyHeaders ==> error@ is TooManyHeaders,
{
}

/// The same of listed headers, of pieces of text and of an optional path.
pub proof fn law_views_of_lists(
    list: Seq<(String, Vec<u8>)>,
    texts: Seq<(String, String)>,
    pieces: Seq<Vec<char>>,
    path: Option<&str>,
    i: int,
)
    ensures
        views(pieces).len() == pieces.len(),
        0 <= i < pieces.len() ==> views(pieces)[i] == pieces[i]@,
        path is None ==> path_text(path) is None,
        path matches Some(p) ==> path_text(path) == Some(p@),
        list_view(list).len() == list.len(),
        0 <= i < list.len() ==> list_view(list)[i] == (list[i].0@, list[i].1@),
        text_list_view(texts).len() == texts.len(),
        0 <= i < texts.len() ==> text_list_view(texts)[i] == (texts[i].0@, texts[i].1@),
{
}

/// A header value is text exactly when all its bytes are printable ASCII, spaces or tabs, and then
/// its characters are these bytes.
pub proof fn law_header_text(bytes: Seq<u8>)
    ensures
        visible_text(bytes) is Some <==> forall|i: int|
            0 <= i < bytes.len() ==> 32 <= #[trigger] bytes[i] <= 126 || bytes[i] == 9,
        visible_text(bytes) matches Some(t) ==> t.len() == bytes.len() && forall|i: int|
            0 <= i < t.len() ==> #[trigger] t[i] as int == bytes[i] as int,
{
    if visible_text(bytes) is Some {
        assert forall|i: int| 0 <= i < bytes.len() implies 32 <= #[trigger] bytes[i] <= 126
            || bytes[i] == 9 by {
            assert(is_visible(bytes[i]));
        }
    }
}

/// The text of a URI is its scheme and `://`, its authority, its path, and `?` and its query, each
/// if it has one.
pub proof fn law_uri_text(uri: UriView)
    ensures
        uri.scheme matches Some(s) ==> uri.authority matches Some(a) ==> uri.path_and_query matches
            Some(p) ==> {
            &&& p.query is None ==> uri_text(uri) == s + "://"@ + a.text + p.path
            &&& p.query matches Some(q) ==> uri_text(uri) == s + "://"@ + a.text + p.path
                + seq!['?'] + q
        },
        uri.scheme is None && uri.authority is None ==> (uri.path_and_query matches Some(p) ==> {
            &&& p.query is None ==> uri_text(uri) == p.path
            &&& p.query matches Some(q) ==> uri_text(uri) == p.path + seq!['?'] + q
        }),
        uri.scheme is None && uri.path_and_query is None ==> (uri.authority matches Some(a)
            ==> uri_text(uri) == a.text),
{
    let e = Seq::<char>::empty();
    if let Some(p) = uri.path_and_query {
        if let Some(q) = p.query {
            assert(path_of(uri) + (seq!['?'] + q) == p.path + seq!['?'] + q);
            if let Some(a) = uri.authority {
                if let Some(s) = uri.scheme {
                    assert(uri_text(uri) == s + "://"@ + a.text + p.path + seq!['?'] + q);
                }
            }
            assert(e + e + p.path + (seq!['?'] + q) == p.path + seq!['?'] + q);
        } else {
            assert(e + e + p.path + e == p.path);
            if let Some(a) = uri.authority {
                if let Some(s) = uri.scheme {
                    assert(uri_text(uri) == s + "://"@ + a.text + p.path);
                }
            }
        }
    } else {
        if let Some(a) = uri.authority {
            assert(e + a.text + e + e == a.text);
        }
    }
}

/// The parts that are asked of a URI.
pub proof fn law_uri_parts(uri: UriView)
    ensures
        uri.path_and_query is None ==> path_of(uri).len() == 0,
        uri.path_and_query matches Some(p) ==> path_of(uri) == p.path,
        uri.authority is None ==> host_of(uri) is None,
        uri.authority matches Some(a) ==> host_of(uri) == Some(a.host),
        root_uri().scheme is None && root_uri().authority is None,
        root_uri().path_and_query == Some(
            PathAndQueryView { text: seq!['/'], path: seq!['/'], query: None },
        ),
        // With a scheme, an authority and a path must be there; without one, not both.
        parts_error(uri) is None <==> (uri.scheme is Some && uri.authority is Some
            && uri.path_and_query is Some) || (uri.scheme is None && !(uri.authority is Some
            && uri.path_and_query is Some)),
        uri.scheme is Some && uri.authority is None ==> parts_error(uri) == Some(
            "authority missing"@,
        ),
        uri.scheme is Some && uri.authority is Some && uri.path_and_query is None ==> parts_error(
            uri,
        ) == Some("path missing"@),
        uri.scheme is None && parts_error(uri) is Some ==> parts_error(uri) == Some(
            "scheme missing"@,
        ),
{
}

/// The replies that the library makes itself.
pub proof fn law_own_replies(status: u16, text: Seq<char>, location: Seq<char>)
    ensures
        text_reply_view(status, text).status == status,
        text_reply_view(status, text).headers == HeaderFields::empty(),
        text_reply_view(status, text).body == BodyView::Text(text),
        not_found_view().status == 404 && not_found_view().headers == HeaderFields::empty(),
        not_found_view().body == BodyView::Text("not found"@),
        redirect_view(location).status == 308 && redirect_view(location).body is Empty,
        values_of(redirect_view(location).headers, "location"@) == seq![encode_utf8(location)],
        redirect_view(location).headers.dom() == set!["location"@],
{
    assert(redirect_view(location).headers.dom() =~= set!["location"@]);
}

/// A reply that was fetched is sent whole, with its status, its headers and all its bytes, whether
/// it is kept or not. It is kept, for as long as asked for, unless it has more than 262144 bytes.
pub proof fn law_fetched_reply_is_sent_whole(ttl: u64, f: FetchedView)
    ensures
        match cache_step(ttl, CacheEventView::Fetched(f)) {
            CacheStepView::Fetch => false,
            CacheStepView::Reply(r) => {
                &&& f.body.len() > 262144
                &&& r.status == f.status && r.headers == f.headers
                &&& r.body == BodyView::Bytes(f.body)
            },
            CacheStepView::Store(e, r) => {
                &&& f.body.len() <= 262144
                &&& r.status == f.status && r.headers == f.headers
                &&& r.body == BodyView::Bytes(f.body)
                &&& e.ttl == ttl && e.status == f.status && e.headers == f.headers
                &&& e.body == f.body
            },
        },
{
}

/// A reply that is kept is kept for its time and sent as it is kept, a reply that is not kept is
/// fetched, and why a reply could not be fetched is told.
pub proof fn law_other_cache_steps(ttl: u64, e: CacheEntryView, error: Seq<char>)
    ensures
        kept_for(e) == Some(e.ttl),
        cache_step(ttl, CacheEventView::Missing) is Fetch,
        cache_step(ttl, CacheEventView::Found(e)) matches CacheStepView::Reply(r) && r.status
            == e.status && r.headers == e.headers && r.body == BodyView::Bytes(e.body),
        cache_step(ttl, CacheEventView::Failed(error)) matches CacheStepView::Reply(r) && r.status
            == 500 && r.headers == HeaderFields::empty() && r.body == BodyView::Text(error),
{
}

/// The reply from a file has its bytes, their number and the media type, and no other header.
pub proof fn law_file_reply(content_type: Seq<char>, content: Seq<u8>)
    ensures
        file_reply_view(content_type, content).status == 200,
        file_reply_view(content_type, content).body == BodyView::Bytes(content),
        values_of(file_reply_view(content_type, content).headers, "content-type"@) == seq![
            encode_utf8(content_type),
        ],
        values_of(file_reply_view(content_type, content).headers, "content-length"@) == seq![
            encode_utf8(decimal(content.len())),
        ],
        file_reply_view(content_type, content).headers.dom() == set![
            "content-type"@,
            "content-length"@,
        ],
{
    reveal_strlit("content-type");
    reveal_strlit("content-length");
    assert("content-type"@.len() != "content-length"@.len());
    assert(file_reply_view(content_type, content).headers.dom() =~= set![
        "content-type"@,
        "content-length"@,
    ]);
}

/// A file that is not there is not found, and only that. One that is there is read and kept if its
/// reply is to be kept and it has between 1 and 262144 bytes; else the server of the directory
/// answers the request as it is, and a request for `/` without headers is left.
pub proof fn law_where_a_file_comes_from(
    ctx: ContextView,
    root: Seq<char>,
    path: Seq<char>,
    exists: bool,
    len: u64,
)
    ensures
        match file_plan(ctx, root, path, exists, len) {
            (after, FilePlanView::Reply(r)) => {
                &&& !exists && after == ctx
                &&& r.status == 404 && r.headers == HeaderFields::empty()
                &&& r.body == BodyView::Text("not found"@)
            },
            (after, FilePlanView::Serve { root: below, req }) => {
                &&& exists && (ctx.cache == 0 || len == 0 || len > 262144)
                &&& below == root && req == ctx.req
                &&& after.ws == ctx.ws && after.cache == ctx.cache
                &&& after.req == RequestView {
                    uri: UriView {
                        scheme: None,
                        authority: None,
                        path_and_query: Some(
                            PathAndQueryView { text: seq!['/'], path: seq!['/'], query: None },
                        ),
                    },
                    headers: HeaderFields::empty(),
                    entries: Seq::empty(),
                }
            },
            (after, FilePlanView::Cached { key, ttl }) => {
                &&& exists && ctx.cache > 0 && 1 <= len <= 262144
                &&& key == "file:"@ + path && ttl == ctx.cache && after == ctx
            },
        },
{
}

/// `redir` sends the client to the parameter for good and leaves the request as it is, unless the
/// parameter cannot stand in a header.
pub proof fn law_redir(ctx: ContextView, param: Seq<char>)
    ensures
        directive_step(ctx, "redir"@, param) matches (after, Some(ActionView::Reply(r))) && {
            &&& after == ctx
            &&& r.status == 308 && r.body is Empty
            &&& r.headers == HeaderFields::empty().insert("location"@, seq![encode_utf8(param)])
        },
        directive_fault(ctx, "redir"@, param) == (if is_header_text(param) {
            None
        } else {
            Some(FaultView::Location)
        }),
{
}

/// The text of a path, or of `/` in the place of an empty one, and of a query behind `?`.
pub open spec fn path_and_query_text(path: Seq<char>, query: Option<Seq<char>>) -> Seq<char> {
    match (path.len() == 0, query) {
        (true, None) => seq!['/'],
        (true, Some(q)) => seq!['/', '?'] + q,
        (false, None) => path,
        (false, Some(q)) => path + seq!['?'] + q,
    }
}

proof fn lemma_path_and_query_text(uri: UriView, path: Seq<char>)
    ensures
        uri.path_and_query matches Some(p) ==> new_target(uri, Some(path)) == Some(
            path_and_query_text(path, p.query),
        ),
        uri.path_and_query is None ==> new_target(uri, Some(path)) is None,
        new_target(uri, None) is None,
{
    if let Some(p) = uri.path_and_query {
        if let Some(q) = p.query {
            assert(seq!['/'] + seq!['?'] + q == seq!['/', '?'] + q);
        }
    }
}

/// A new path for a URI makes the text of that path and the old query, which is read as a URI. A
/// URI without a path stays as it is, and so does one that gets no new path.
pub proof fn law_new_path(uri: UriView, path: Seq<char>)
    ensures
        uri.path_and_query matches Some(p) ==> {
            let text = path_and_query_text(path, p.query);
            &&& new_target(uri, Some(path)) == Some(text)
            &&& modified(uri, Some(path)) == uri_parse(text)
            &&& uri_parse(text) matches Ok(u) ==> modified_or_same(uri, Some(path)) == u
            &&& uri_parse(text) is Err ==> modified_or_same(uri, Some(path)) == uri
        },
        uri.path_and_query is None ==> new_target(uri, Some(path)) is None && modified(
            uri,
            Some(path),
        ) == Ok::<UriView, Seq<char>>(uri) && modified_or_same(uri, Some(path)) == uri,
        new_target(uri, None) is None,
        modified(uri, None) == Ok::<UriView, Seq<char>>(uri),
        modified_or_same(uri, None) == uri,
{
    lemma_path_and_query_text(uri, path);
}

/// `strip_prefix` leaves of a path that starts with the prefix the rest, and the query, as far as
/// these can be read as a URI; nothing else changes, and no other path does.
pub proof fn law_strip_prefix(ctx: ContextView, prefix: Seq<char>, rest: Seq<char>)
    ensures
        directive_fault(ctx, "strip_prefix"@, prefix) is None,
        directive_step(ctx, "strip_prefix"@, prefix).1 is None,
        ({
            let after = directive_step(ctx, "strip_prefix"@, prefix).0;
            &&& after == ContextView { req: RequestView { uri: after.req.uri, ..ctx.req }, ..ctx }
            &&& ctx.req.uri.path_and_query is None ==> after == ctx
            &&& ctx.req.uri.path_and_query matches Some(p) ==> {
                let text = path_and_query_text(rest, p.query);
                &&& p.path == prefix + rest && uri_parse(text) is Ok ==> after.req.uri
                    == uri_parse(text)->Ok_0
                &&& p.path == prefix + rest && uri_parse(text) is Err ==> after == ctx
                &&& (forall|r: Seq<char>| p.path != #[trigger] (prefix + r)) ==> after == ctx
            }
        }),
{
    lemma_directive_names();
    lemma_path_and_query_text(ctx.req.uri, rest);
    law_starts_with(path_of(ctx.req.uri), prefix);
    assert((prefix + rest).skip(prefix.len() as int) == rest);
    assert((prefix + rest).take(prefix.len() as int) == prefix);
}

/// `rewrite` puts the parameter in the place of the path and keeps the query, as far as these can
/// be read as a URI; nothing else changes.
pub proof fn law_rewrite(ctx: ContextView, param: Seq<char>)
    ensures
        directive_fault(ctx, "rewrite"@, param) is None,
        directive_step(ctx, "rewrite"@, param).1 is None,
        ({
            let after = directive_step(ctx, "rewrite"@, param).0;
            &&& after == ContextView { req: RequestView { uri: after.req.uri, ..ctx.req }, ..ctx }
            &&& ctx.req.uri.path_and_query is None ==> after == ctx
            &&& ctx.req.uri.path_and_query matches Some(p) ==> {
                let text = path_and_query_text(param, p.query);
                &&& uri_parse(text) matches Ok(u) ==> after.req.uri == u
                &&& uri_parse(text) is Err ==> after == ctx
            }
        }),
{
    lemma_directive_names();
    lemma_path_and_query_text(ctx.req.uri, param);
}

/// `cache` has the reply kept for the number of seconds that the parameter names, and not at all if
/// it names none; nothing else changes.
pub proof fn law_cache(ctx: ContextView, param: Seq<char>)
    ensures
        directive_fault(ctx, "cache"@, param) is None,
        directive_step(ctx, "cache"@, param).1 is None,
        ({
            let after = directive_step(ctx, "cache"@, param).0;
            &&& after.ws == ctx.ws && after.req == ctx.req
            &&& parse_number(param) matches Some(n) ==> after.cache == n
            &&& parse_number(param) is None ==> after.cache == 0
        }),
{
    lemma_directive_names();
}

/// `file_server` asks for the file below the parameter at the path of the request, without the `/`
/// that this starts with.
pub proof fn law_file_server(ctx: ContextView, root: Seq<char>, rest: Seq<char>)
    ensures
        directive_fault(ctx, "file_server"@, root) is None,
        directive_step(ctx, "file_server"@, root) matches (
            after,
            Some(ActionView::File { root: below, relative }),
        ) && {
            &&& after == ctx && below == root
            &&& ctx.req.uri.path_and_query is None ==> relative.len() == 0
            &&& ctx.req.uri.path_and_query matches Some(p) ==> {
                &&& p.path == seq!['/'] + rest ==> relative == rest
                &&& p.path.len() == 0 || p.path[0] != '/' ==> relative == p.path
            }
        },
{
    lemma_directive_names();
    reveal_strlit("/");
    assert("/"@ == seq!['/']);
    let path = path_of(ctx.req.uri);
    law_starts_with(path, "/"@);
    assert((seq!['/'] + rest).skip(1) == rest);
    assert((seq!['/'] + rest).take(1) == seq!['/']);
    if path.len() > 0 && starts_with(path, "/"@) {
        assert(path.take(1)[0] == path[0]);
    }
}

/// `wol` wakes the machine with the hardware address in its parameter, if there is one that can be
/// read and at most one more word, from which it is sent. Whatever comes of it, `ok` is the reply.
pub proof fn law_wol(ctx: ContextView, param: Seq<char>)
    ensures
        directive_fault(ctx, "wol"@, param) is None,
        directive_step(ctx, "wol"@, param).0 == ctx,
        ({
            let ok = ReplyView {
                status: 200,
                headers: HeaderFields::empty(),
                body: BodyView::Text("ok"@),
            };
            let args = words(param);
            let mac = mac_parse(args[0]);
            let action = directive_step(ctx, "wol"@, param).1;
            &&& args.len() == 1 && mac is Some ==> action == Some(
                ActionView::Wake { mac: mac->0, bind: None, reply: ok },
            )
            &&& args.len() == 2 && mac is Some ==> action == Some(
                ActionView::Wake { mac: mac->0, bind: Some(args[1]), reply: ok },
            )
            &&& args.len() == 0 || args.len() > 2 || mac is None ==> action == Some(
                ActionView::Reply(ok),
            )
        }),
{
    lemma_directive_names();
}

/// The two halves of `wol`: its words, and what is done with an address that was read.
pub proof fn law_wake(param: Seq<char>, mac: Option<Seq<u8>>, bind: Option<Seq<char>>)
    ensures
        wake_words(param) is Some <==> 1 <= words(param).len() <= 2,
        words(param).len() == 1 ==> wake_words(param) == Some((words(param)[0], None::<Seq<char>>)),
        words(param).len() == 2 ==> wake_words(param) == Some(
            (words(param)[0], Some(words(param)[1])),
        ),
        ({
            let ok = ReplyView {
                status: 200,
                headers: HeaderFields::empty(),
                body: BodyView::Text("ok"@),
            };
            &&& mac is None ==> wake_view(mac, bind) == ActionView::Reply(ok)
            &&& mac matches Some(m) ==> wake_view(mac, bind) == (ActionView::Wake {
                mac: m,
                bind,
                reply: ok,
            })
        }),
{
}

/// A machine is woken with its own hardware address, and from the address that was read if there is
/// one. It is not if that could not be read.
pub proof fn law_wake_from<A>(mac: [u8; 6], address: A)
    ensures
        woken_from(mac, None::<Option<A>>) == Some((mac, None::<A>)),
        woken_from(mac, Some(Some(address))) == Some((mac, Some(address))),
        woken_from(mac, Some(None::<A>)) is None,
{
}

/// Any other directive is told to be unknown, and the request stays as it is.
pub proof fn law_unknown_directive(ctx: ContextView, name: Seq<char>, param: Seq<char>)
    requires
        name != "redir"@ && name != "strip_prefix"@ && name != "rewrite"@ && name != "cache"@,
        name != "reverse_proxy"@ && name != "file_server"@ && name != "wol"@,
    ensures
        directive_fault(ctx, name, param) is None,
        directive_step(ctx, name, param) == (
            ctx,
            Some(
                ActionView::Reply(
                    ReplyView {
                        status: 500,
                        headers: HeaderFields::empty(),
                        body: BodyView::Text("unknown directive: "@ + name),
                    },
                ),
            ),
        ),
{
}

/// The authority for a server is the server alone, or the user that the old authority names, `@`
/// and the server.
pub proof fn law_new_authority(
    old_authority: Option<AuthorityView>,
    user: Seq<char>,
    old_server: Seq<char>,
    server: Seq<char>,
)
    ensures
        old_authority is None ==> new_authority(old_authority, server) == server,
        old_authority matches Some(a) ==> {
            &&& !a.text.contains('@') ==> new_authority(old_authority, server) == server
            &&& a.text == user + seq!['@'] + old_server && !old_server.contains('@')
                ==> new_authority(old_authority, server) == user + seq!['@'] + server
        },
{
    if let Some(a) = old_authority {
        if a.text == user + seq!['@'] + old_server && !old_server.contains('@') {
            law_user_is_kept(user, old_server, a, server);
        }
        lemma_find_last(a.text, '@');
        if !a.text.contains('@') {
            if let Some(i) = find_last(a.text, '@') {
                assert(a.text.contains(a.text[i as int]));
            }
        }
    }
}

/// To point a URI at a server gives it the scheme and the server, whose text is read as an
/// authority, and keeps its path and its query. It fails where the scheme or the authority is none,
/// and where there is no path.
pub proof fn law_retarget(uri: UriView, scheme: Seq<char>, server: Seq<char>)
    ensures
        ({
            let authority = authority_parse(new_authority(uri.authority, server));
            let r = retarget(uri, scheme, server);
            &&& scheme_error(scheme) matches Some(e) ==> r == Err::<UriView, Seq<char>>(e)
            &&& scheme_error(scheme) is None && authority is Err ==> r == Err::<
                UriView,
                Seq<char>,
            >(authority->Err_0)
            &&& scheme_error(scheme) is None && authority is Ok && uri.path_and_query is None
                ==> r == Err::<UriView, Seq<char>>("path missing"@)
            &&& scheme_error(scheme) is None && authority is Ok && uri.path_and_query is Some
                ==> r == Ok::<UriView, Seq<char>>(
                UriView {
                    scheme: Some(scheme),
                    authority: Some(authority->Ok_0),
                    path_and_query: uri.path_and_query,
                },
            )
        }),
{
}

/// The same of a scheme and an authority that were read.
pub proof fn law_with_server(uri: UriView, scheme: Seq<char>, authority: AuthorityView)
    ensures
        uri.path_and_query is None ==> with_server(uri, scheme, authority) == Err::<
            UriView,
            Seq<char>,
        >("path missing"@),
        uri.path_and_query is Some ==> with_server(uri, scheme, authority) == Ok::<
            UriView,
            Seq<char>,
        >(
            UriView {
                scheme: Some(scheme),
                authority: Some(authority),
                path_and_query: uri.path_and_query,
            },
        ),
{
}

/// The scheme of a request that is passed on is the one that the URL of the server names, whether
/// or not the request asks for a web socket. Only where it names none is it `ws` for a web socket
/// and `http` for anything else.
pub open spec fn is_scheme_for(ws: bool, url: UrlView, scheme: Seq<char>) -> bool {
    match url.scheme {
        Some(s) => scheme == s,
        None => scheme == (if ws {
            seq!['w', 's']
        } else {
            seq!['h', 't', 't', 'p']
        }),
    }
}

/// `reverse_proxy` passes the request on with the scheme and the server of the URL, and with its
/// own path, query and headers: as a web socket if it asks for one, else under a key by which the
/// reply is kept, if it is to be kept. The key is `rproxy:` and the whole text of the new URI. What
/// stays behind is a request for `/` without headers that asks for no web socket.
pub proof fn law_reverse_proxy(
    ctx: ContextView,
    param: Seq<char>,
    url: UrlView,
    scheme: Seq<char>,
    authority: AuthorityView,
)
    requires
        parse_url(param) == Ok::<UrlView, UrlError>(url),
        is_scheme_for(ctx.ws, url, scheme),
        scheme_error(scheme) is None,
        authority_parse(new_authority(ctx.req.uri.authority, url.host)) == Ok::<
            AuthorityView,
            Seq<char>,
        >(authority),
        ctx.req.uri.path_and_query is Some,
    ensures
        directive_fault(ctx, "reverse_proxy"@, param) is None,
        ({
            let path = ctx.req.uri.path_and_query->0;
            let req = RequestView {
                uri: UriView {
                    scheme: Some(scheme),
                    authority: Some(authority),
                    path_and_query: Some(path),
                },
                headers: ctx.req.headers,
                entries: ctx.req.entries,
            };
            let query = match path.query {
                Some(q) => seq!['?'] + q,
                None => Seq::empty(),
            };
            let key = "rproxy:"@ + (scheme + "://"@ + authority.text + path.path + query);
            let (after, action) = directive_step(ctx, "reverse_proxy"@, param);
            &&& ctx.ws ==> action == Some(ActionView::ProxyWebSocket(req))
            &&& !ctx.ws && ctx.cache == 0 ==> action == Some(ActionView::Proxy(req))
            &&& !ctx.ws && ctx.cache > 0 ==> action == Some(
                ActionView::ProxyCached { req, key, ttl: ctx.cache },
            )
            &&& !after.ws && after.cache == ctx.cache
            &&& after.req.headers == HeaderFields::empty() && after.req.entries.len() == 0
            &&& after.req.uri.scheme is None && after.req.uri.authority is None
            &&& after.req.uri.path_and_query == Some(
                PathAndQueryView { text: seq!['/'], path: seq!['/'], query: None },
            )
        }),
{
    lemma_directive_names();
    reveal_strlit("ws");
    reveal_strlit("http");
    assert("ws"@ == seq!['w', 's']);
    assert("http"@ == seq!['h', 't', 't', 'p']);
    let path = ctx.req.uri.path_and_query->0;
    let uri = UriView {
        scheme: Some(scheme),
        authority: Some(authority),
        path_and_query: Some(path),
    };
    assert(uri_text(uri) == scheme + "://"@ + authority.text + path.path + match path.query {
        Some(q) => seq!['?'] + q,
        None => Seq::empty(),
    });
}

/// `reverse_proxy` tells what is wrong with a parameter that is no URL. What stops a request from
/// being pointed at a server is a scheme or an authority that is none, or the want of a path.
pub proof fn law_reverse_proxy_refuses(ctx: ContextView, param: Seq<char>)
    ensures
        parse_url(param) matches Err(e) ==> {
            &&& directive_fault(ctx, "reverse_proxy"@, param) is None
            &&& directive_step(ctx, "reverse_proxy"@, param) == (
                ctx,
                Some(
                    ActionView::Reply(
                        ReplyView {
                            status: 500,
                            headers: HeaderFields::empty(),
                            body: BodyView::Text(
                                match e {
                                    UrlError::NoMatch => "url error"@,
                                    UrlError::Authority => "url anthority error"@,
                                    UrlError::HostEmpty => "url host empty"@,
                                },
                            ),
                        },
                    ),
                ),
            )
        },
        parse_url(param) matches Ok(url) ==> forall|scheme: Seq<char>| #[trigger]
            is_scheme_for(ctx.ws, url, scheme) ==> {
                let authority = authority_parse(new_authority(ctx.req.uri.authority, url.host));
                let fault = directive_fault(ctx, "reverse_proxy"@, param);
                &&& scheme_error(scheme) matches Some(e) ==> fault == Some(FaultView::Upstream(e))
                &&& scheme_error(scheme) is None && authority is Err ==> fault == Some(
                    FaultView::Upstream(authority->Err_0),
                )
                &&& scheme_error(scheme) is None && authority is Ok
                    && ctx.req.uri.path_and_query is None ==> fault == Some(
                    FaultView::Upstream("path missing"@),
                )
            },
{
    lemma_directive_names();
    reveal_strlit("ws");
    reveal_strlit("http");
    assert("ws"@ == seq!['w', 's']);
    assert("http"@ == seq!['h', 't', 't', 'p']);
}

/// One directive is carried out by its name and its parameter: what stops it stops the request, and
/// else its action, if it has one, ends the way.
pub proof fn law_one_directive(ctx: ContextView, directive: Seq<char>)
    ensures
        run_directives(ctx, Seq::empty()) == Progress::Onward(ctx),
        ({
            let (name, param) = directive_parts(directive);
            let (after, action) = directive_step(ctx, name, param);
            let run = run_directives(ctx, seq![directive]);
            &&& directive_fault(ctx, name, param) matches Some(f) ==> run == Progress::Stopped(
                ctx,
                f,
            )
            &&& directive_fault(ctx, name, param) is None ==> run == match action {
                Some(a) => Progress::Ended(after, a),
                None => Progress::Onward(after),
            }
        }),
{
    let one = seq![directive];
    assert(one.drop_first() == Seq::<Seq<char>>::empty());
    let (name, param) = directive_parts(directive);
    let after = directive_step(ctx, name, param).0;
    assert(run_directives(after, one.drop_first()) == Progress::Onward(after));
}

/// One route has its directives carried out for a request whose path it matches, and lets any other
/// request pass.
pub proof fn law_one_route(ctx: ContextView, route: RouteView)
    ensures
        run_routes(ctx, Seq::empty()) == Progress::Onward(ctx),
        ({
            let path = match ctx.req.uri.path_and_query {
                Some(p) => p.path,
                None => Seq::empty(),
            };
            run_routes(ctx, seq![route]) == if route_matches(route.matcher, path) {
                run_directives(ctx, route.directive)
            } else {
                Progress::Onward(ctx)
            }
        }),
{
    let one = seq![route];
    assert(one.drop_first() == Seq::<RouteView>::empty());
    if let Progress::Onward(next) = run_directives(ctx, route.directive) {
        assert(run_routes(next, one.drop_first()) == Progress::Onward(next));
    }
    assert(run_routes(ctx, one.drop_first()) == Progress::Onward(ctx));
}

/// What the routes come to is done. A request that passes them all is not found.
pub proof fn law_handled(ctx: ContextView, routes: Seq<RouteView>)
    ensures
        match run_routes(ctx, routes) {
            Progress::Onward(next) => handled(ctx, routes) == (
                next,
                Ok::<ActionView, FaultView>(
                    ActionView::Reply(
                        ReplyView {
                            status: 404,
                            headers: HeaderFields::empty(),
                            body: BodyView::Text("not found"@),
                        },
                    ),
                ),
            ),
            Progress::Ended(next, action) => handled(ctx, routes) == (
                next,
                Ok::<ActionView, FaultView>(action),
            ),
            Progress::Stopped(next, fault) => handled(ctx, routes) == (
                next,
                Err::<ActionView, FaultView>(fault),
            ),
        },
{
}

/// A message stays of its kind and keeps what it holds, whichever way it goes.
pub proof fn law_kinds_of_messages(text: String, bytes: Vec<u8>, code: u16, reason: String)
    ensures
        for_client(TMessage::Text(text)) == Message::Text(text),
        for_client(TMessage::Binary(bytes)) == Message::Binary(bytes),
        for_client(TMessage::Ping(bytes)) == Message::Ping(bytes),
        for_client(TMessage::Pong(bytes)) == Message::Pong(bytes),
        for_client(TMessage::Close(None)) == Message::Close(None),
        for_client(TMessage::Close(Some(TCloseFrame { code, reason }))) == Message::Close(
            Some(CloseFrame { code, reason }),
        ),
        for_upstream(Message::Text(text)) == TMessage::Text(text),
        for_upstream(Message::Binary(bytes)) == TMessage::Binary(bytes),
        for_upstream(Message::Ping(bytes)) == TMessage::Ping(bytes),
        for_upstream(Message::Pong(bytes)) == TMessage::Pong(bytes),
        for_upstream(Message::Close(None)) == TMessage::Close(None),
        for_upstream(Message::Close(Some(CloseFrame { code, reason }))) == TMessage::Close(
            Some(TCloseFrame { code, reason }),
        ),
{
}

/// A message goes to the other side, a message that was sent is waited behind, and anything else
/// ends the relay.
pub proof fn law_relay_steps(theirs: TMessage, ours: Message)
    ensures
        relay_step(RelayEvent::FromUpstream(theirs)) == RelayStep::ToClient(for_client(theirs)),
        relay_step(RelayEvent::FromClient(ours)) == RelayStep::ToUpstream(for_upstream(ours)),
        relay_step(RelayEvent::Sent) == RelayStep::Wait,
        relay_step(RelayEvent::UpstreamEnded) == RelayStep::Stop,
        relay_step(RelayEvent::ClientEnded) == RelayStep::Stop,
        relay_step(RelayEvent::SendFailed) == RelayStep::Stop,
{
}

/// Of a web socket request each host becomes the whole host of the URI, with `:` and the port if it
/// has one, every other header whose bytes are all printable ASCII, spaces or tabs is passed on as
/// it is, and the rest is left out.
pub proof fn law_one_web_socket_header(
    name: Seq<char>,
    value: Seq<u8>,
    uri: UriView,
    authority: AuthorityView,
)
    requires
        uri.authority == Some(authority),
    ensures
        ({
            let passed = forwarded_list(seq![(name, value)], uri);
            let is_text = forall|i: int|
                0 <= i < value.len() ==> 32 <= #[trigger] value[i] <= 126 || value[i] == 9;
            &&& name == "host"@ && authority.port is None ==> passed == seq![
                (name, authority.host),
            ]
            &&& name == "host"@ && authority.port is Some ==> passed == seq![
                (name, authority.host + seq![':'] + authority.port->0),
            ]
            &&& name != "host"@ && is_text ==> {
                &&& passed.len() == 1 && passed[0].0 == name
                &&& passed[0].1.len() == value.len()
                &&& forall|i: int|
                    0 <= i < value.len() ==> #[trigger] passed[0].1[i] as int == value[i] as int
            }
            &&& name != "host"@ && !is_text ==> passed.len() == 0
        }),
{
    let one = seq![(name, value)];
    assert(one.drop_last() == Seq::<(Seq<char>, Seq<u8>)>::empty());
    assert(forwarded_list(one.drop_last(), uri) == Seq::<(Seq<char>, Seq<char>)>::empty());
    law_header_text(value);
    if let Some(t) = forwarded_value(name, value, uri) {
        assert(Seq::<(Seq<char>, Seq<char>)>::empty().push((name, t)) == seq![(name, t)]);
        assert(forwarded_list(one, uri) == seq![(name, t)]);
    }
}

/// What is passed on for two lists of headers is what is passed on for the one and then for the
/// other.
pub proof fn law_web_socket_headers_in_order(
    a: Seq<(Seq<char>, Seq<u8>)>,
    b: Seq<(Seq<char>, Seq<u8>)>,
    uri: UriView,
)
    ensures
        forwarded_list(a + b, uri) == forwarded_list(a, uri) + forwarded_list(b, uri),
        forwarded_list(Seq::empty(), uri).len() == 0,
    decreases b.len(),
{
    let e = Seq::<(Seq<char>, Seq<char>)>::empty();
    if b.len() == 0 {
        assert(a + b == a);
        assert(forwarded_list(b, uri) == e);
        assert(forwarded_list(a, uri) + e == forwarded_list(a, uri));
    } else {
        let init = b.drop_last();
        law_web_socket_headers_in_order(a, init, uri);
        assert((a + b).drop_last() == a + init);
        assert((a + b).last() == b.last());
        if let Some(t) = forwarded_value(b.last().0, b.last().1, uri) {
            let x = (b.last().0, t);
            assert((forwarded_list(a, uri) + forwarded_list(init, uri)).push(x) == forwarded_list(
                a,
                uri,
            ) + forwarded_list(init, uri).push(x));
        }
    }
}

/// Where a URI with an authority is: its scheme, if it has one, `://` and its whole host.
pub open spec fn is_site(uri: UriView, authority: AuthorityView, site: Seq<char>) -> bool {
    match uri.scheme {
        Some(s) => site == s + "://"@ + authority.host,
        None => site == "://"@ + authority.host,
    }
}

/// A request that is passed on names the whole host of its URI as its only host. An origin that it
/// has becomes the scheme of the URI, `://` and the whole host, and a referer that it has becomes
/// the same text and the path and the query of the old one. All other headers stay as they are.
pub proof fn law_http_proxy_headers(
    fields: HeaderFields,
    uri: UriView,
    referer: UriView,
    authority: AuthorityView,
    site: Seq<char>,
    name: Seq<char>,
)
    requires
        uri.authority == Some(authority),
        is_site(uri, authority, site),
    ensures
        proxy_headers_given(fields, uri, Ok(referer)) matches Ok(g) ==> {
            &&& values_of(g, "host"@) == seq![encode_utf8(authority.host)]
            &&& fields.dom().contains("origin"@) ==> values_of(g, "origin"@) == seq![
                encode_utf8(site),
            ]
            &&& fields.dom().contains("referer"@) ==> values_of(g, "referer"@) == seq![
                encode_utf8(
                    site + match referer.path_and_query {
                        Some(p) => p.text,
                        None => seq!['/'],
                    },
                ),
            ]
            &&& name != "host"@ ==> (g.dom().contains(name) <==> fields.dom().contains(name))
            &&& name != "host"@ && name != "origin"@ && name != "referer"@ ==> values_of(g, name)
                == values_of(fields, name)
        },
{
    reveal_strlit("host");
    reveal_strlit("referer");
    reveal_strlit("origin");
    assert("host"@.len() == 4 && "referer"@.len() == 7 && "origin"@.len() == 6);
    if uri.scheme is None {
        assert(Seq::<char>::empty() + "://"@ == "://"@);
    }
}

/// A request is passed on exactly where its URI has a host, the referer that it may have is text
/// and a URI, and what is put in the place of headers can stand there; and what comes first of
/// these, in this order, is the error.
pub proof fn law_http_proxy_errors(
    fields: HeaderFields,
    uri: UriView,
    referer: Result<UriView, Seq<char>>,
    site: Seq<char>,
)
    requires
        uri.authority matches Some(a) ==> is_site(uri, a, site),
    ensures
        ({
            let r = proxy_headers_given(fields, uri, referer);
            let first = fields["referer"@][0];
            let has_referer = fields.dom().contains("referer"@);
            let has_origin = fields.dom().contains("origin"@);
            let is_text = forall|i: int|
                0 <= i < first.len() ==> 32 <= #[trigger] first[i] <= 126 || first[i] == 9;
            &&& uri.authority is None ==> r == Err::<HeaderFields, ProxyErrorView>(
                ProxyErrorView::NoHost,
            )
            &&& uri.authority matches Some(a) ==> {
                let moved = site + match referer->Ok_0.path_and_query {
                    Some(p) => p.text,
                    None => seq!['/'],
                };
                if !is_header_text(a.host) {
                    r == Err::<HeaderFields, ProxyErrorView>(ProxyErrorView::HeaderValue)
                } else if has_referer && !is_text {
                    r == Err::<HeaderFields, ProxyErrorView>(ProxyErrorView::HeaderText)
                } else if has_referer && referer is Err {
                    r == Err::<HeaderFields, ProxyErrorView>(
                        ProxyErrorView::Referer(referer->Err_0),
                    )
                } else if has_referer && !is_header_text(moved) || has_origin && !is_header_text(
                    site,
                ) {
                    r == Err::<HeaderFields, ProxyErrorView>(ProxyErrorView::HeaderValue)
                } else {
                    r is Ok
                }
            }
        }),
{
    reveal_strlit("host");
    reveal_strlit("referer");
    reveal_strlit("origin");
    assert("host"@.len() == 4 && "referer"@.len() == 7 && "origin"@.len() == 6);
    law_header_text(fields["referer"@][0]);
    if uri.scheme is None {
        assert(Seq::<char>::empty() + "://"@ == "://"@);
    }
}

/// The referer that is read as a URI is the first, by the characters that its bytes stand for.
pub proof fn law_referer_is_read(fields: HeaderFields, uri: UriView, text: Seq<char>)
    ensures
        fields.dom().contains("referer"@) ==> {
            let first = fields["referer"@][0];
            text.len() == first.len() && (forall|i: int|
                0 <= i < first.len() ==> #[trigger] text[i] as int == first[i] as int && (32
                    <= first[i] <= 126 || first[i] == 9)) ==> {
                &&& referer_text(fields) == Some(text)
                &&& proxy_headers(fields, uri) == proxy_headers_given(fields, uri, uri_parse(text))
            }
        },
        fields.dom().contains("referer"@) && referer_text(fields) is Some ==> {
            let first = fields["referer"@][0];
            forall|i: int|
                0 <= i < first.len() ==> 32 <= #[trigger] first[i] <= 126 || first[i] == 9
        },
        !fields.dom().contains("referer"@) ==> referer_text(fields) is None && forall|
            u: Result<UriView, Seq<char>>,
        | proxy_headers(fields, uri) == #[trigger] proxy_headers_given(fields, uri, u),
{
    reveal_strlit("host");
    reveal_strlit("referer");
    assert("host"@.len() == 4 && "referer"@.len() == 7);
    if fields.dom().contains("referer"@) {
        let first = fields["referer"@][0];
        law_header_text(first);
        if text.len() == first.len() && (forall|i: int|
            0 <= i < first.len() ==> #[trigger] text[i] as int == first[i] as int && (32
                <= first[i] <= 126 || first[i] == 9)) {
            assert forall|i: int| 0 <= i < first.len() implies 32 <= #[trigger] first[i] <= 126
                || first[i] == 9 by {
                assert(text[i] as int == first[i] as int);
            }
            let t = visible_text(first)->0;
            assert forall|i: int| 0 <= i < t.len() implies t[i] == text[i] by {
                assert(text[i] as int == first[i] as int);
                assert(t[i] as int == first[i] as int);
            }
            assert(t == text);
        }
    }
}

/// What comes back of passing a request on is what is expected, but for more than 6552 names, for
/// which there may be no room.
pub proof fn law_proxy_outcome(
    r: Result<HeaderMap<HeaderValue>, ProxyError>,
    expected: Result<HeaderFields, ProxyErrorView>,
    fields: HeaderFields,
)
    requires
        proxy_outcome(r, expected, fields),
    ensures
        r matches Ok(map) ==> expected == Ok::<HeaderFields, ProxyErrorView>(header_fields(map)),
        r matches Err(e) ==> !(e is TooManyHeaders) ==> expected == Err::<
            HeaderFields,
            ProxyErrorView,
        >(e@),
        r matches Err(e) ==> e is TooManyHeaders ==> !(fields.dom().finite() && fields.dom().len()
            <= 6552),
{
}

/// There are few names where there are finitely many and not more than so many.
pub proof fn law_few_names(fields: HeaderFields, n: nat)
    ensures
        has_few_names(fields, n) <==> fields.dom().finite() && fields.dom().len() <= n,
{
}

/// A reply of another server is passed on with all its headers but its length, its connection and
/// its transfer encoding.
pub proof fn law_reply_headers(fields: HeaderFields, name: Seq<char>)
    ensures
        reply_headers(fields).dom().contains(name) <==> fields.dom().contains(name) && name
            != "content-length"@ && name != "connection"@ && name != "transfer-encoding"@,
        reply_headers(fields).dom().contains(name) ==> reply_headers(fields)[name] == fields[name],
{
}

/// What each error says.
pub proof fn law_proxy_messages(error: ProxyError)
    ensures
        error is NoHost ==> error.spec_message() == "http_proxy: host is none"@,
        error is HeaderValue ==> error.spec_message() == "failed to parse header value"@,
        error is HeaderText ==> error.spec_message() == "failed to convert header to a str"@,
        error matches ProxyError::Referer(e) ==> error.spec_message() == e@,
        error is TooManyHeaders ==> error.spec_message() == "size overflows MAX_SIZE"@,
{
}

/// The values of a name are those that it has, and none if it is not there.
pub proof fn law_values_of(fields: HeaderFields, name: Seq<char>)
    ensures
        fields.dom().contains(name) ==> values_of(fields, name) == fields[name],
        !fields.dom().contains(name) ==> values_of(fields, name).len() == 0,
{
}

/// A host with its port is the whole host, and `:` and the port if there is one.
pub proof fn law_host_and_port(uri: UriView)
    ensures
        uri.authority matches Some(a) ==> {
            &&& a.port is None ==> host_and_port(uri) == a.host
            &&& a.port matches Some(p) ==> host_and_port(uri) == a.host + seq![':'] + p
        },
{
}

} // verus!
