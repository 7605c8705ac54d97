//! What each directive does to a request.

use std::str::FromStr;

use http::{HeaderMap, HeaderValue};
use vstd::prelude::*;
use vstd::string::StringExecFns;
use vstd::utf8::encode_utf8;

use crate::cache::CACHE_LIMIT;
use crate::decimal::{parse_number, parse_u64};
use crate::headers::{
    header_entries, header_fields, is_header_text, is_header_value, no_headers, HeaderFields,
};
use crate::reply::{not_found_view, redirect_view, text_reply_view, Reply, ReplyView};
use crate::text::{
    find, find_last, find_last_char, joined, lemma_find, lemma_find_last, lemma_find_unique,
    same_text, split_words, starts_with, text_of, to_chars, to_text, views, without_prefix, words,
};
use crate::uri::{
    authority_from_str, authority_parse, is_plain_authority, is_plain_path, is_relative,
    parts_error, path_of, root_uri, scheme_error, scheme_from_str, split_authority,
    split_path_and_query, uri_parse, uri_text, uri_wf, Authority, AuthorityView, Uri, UriView,
};
use crate::url::{parse_url, Url};

verus! {

/// What a request asks for.
pub struct Request {
    pub uri: Uri,
    pub headers: HeaderMap<HeaderValue>,
}

/// A request on its way through the directives: whether it asks for a web socket, the request
/// itself, and for how many seconds its reply is to be kept.
pub struct RequestContext {
    pub ws: bool,
    pub req: Request,
    pub cache: u64,
}

/// What ends the way of a request.
pub enum Action {
    /// Send a reply.
    Reply(Reply),
    /// Relay a web socket to the server that the request names.
    ProxyWebSocket(Request),
    /// Pass the request on to the server that it names.
    Proxy(Request),
    /// Pass the request on unless a reply is kept under the key, and keep the reply.
    ProxyCached { req: Request, key: String, ttl: u64 },
    /// Look below `root` for the file at `relative`.
    File { root: String, relative: String },
    /// Wake the machine with this hardware address, from the address `bind` if there is one,
    /// and send the reply.
    Wake { mac: [u8; 6], bind: Option<String>, reply: Reply },
}

/// Where a file is to come from.
pub enum FilePlan {
    /// Send a reply.
    Reply(Reply),
    /// Let the file server below `root` answer the request.
    Serve { root: String, req: Request },
    /// Read the file unless a reply is kept under the key, and keep the reply.
    Cached { key: String, ttl: u64 },
}

/// Why a directive cannot be carried out.
pub enum Fault {
    /// The place to redirect to cannot stand in a header.
    Location,
    /// The request cannot be pointed at the server, for this reason.
    Upstream(String),
}

/// What a `Request` holds.
pub struct RequestView {
    pub uri: UriView,
    pub headers: HeaderFields,
    /// The headers in the order in which they are listed.
    pub entries: Seq<(Seq<char>, Seq<u8>)>,
}

/// What a `RequestContext` holds.
pub struct ContextView {
    pub ws: bool,
    pub req: RequestView,
    pub cache: u64,
}

/// What an `Action` holds.
pub enum ActionView {
    Reply(ReplyView),
    ProxyWebSocket(RequestView),
    Proxy(RequestView),
    ProxyCached { req: RequestView, key: Seq<char>, ttl: u64 },
    File { root: Seq<char>, relative: Seq<char> },
    Wake { mac: Seq<u8>, bind: Option<Seq<char>>, reply: ReplyView },
}

/// What a `FilePlan` holds.
pub enum FilePlanView {
    Reply(ReplyView),
    Serve { root: Seq<char>, req: RequestView },
    Cached { key: Seq<char>, ttl: u64 },
}

/// What a `Fault` holds.
pub enum FaultView {
    Location,
    Upstream(Seq<char>),
}

impl View for Request {
    type V = RequestView;

    open spec fn view(&self) -> RequestView {
        RequestView {
            uri: self.uri@,
            headers: header_fields(self.headers),
            entries: header_entries(self.headers),
        }
    }
}

impl View for RequestContext {
    type V = ContextView;

    open spec fn view(&self) -> ContextView {
        ContextView { ws: self.ws, req: self.req@, cache: self.cache }
    }
}

impl View for Action {
    type V = ActionView;

    open spec fn view(&self) -> ActionView {
        match self {
            Action::Reply(r) => ActionView::Reply(r@),
            Action::ProxyWebSocket(req) => ActionView::ProxyWebSocket(req@),
            Action::Proxy(req) => ActionView::Proxy(req@),
            Action::ProxyCached { req, key, ttl } => ActionView::ProxyCached {
                req: req@,
                key: key@,
                ttl: *ttl,
            },
            Action::File { root, relative } => ActionView::File {
                root: root@,
                relative: relative@,
            },
            Action::Wake { mac, bind, reply } => ActionView::Wake {
                mac: mac@,
                bind: text_of(*bind),
                reply: reply@,
            },
        }
    }
}

impl View for FilePlan {
    type V = FilePlanView;

    open spec fn view(&self) -> FilePlanView {
        match self {
            FilePlan::Reply(r) => FilePlanView::Reply(r@),
            FilePlan::Serve { root, req } => FilePlanView::Serve { root: root@, req: req@ },
            FilePlan::Cached { key, ttl } => FilePlanView::Cached { key: key@, ttl: *ttl },
        }
    }
}

impl View for Fault {
    type V = FaultView;

    open spec fn view(&self) -> FaultView {
        match self {
            Fault::Location => FaultView::Location,
            Fault::Upstream(e) => FaultView::Upstream(e@),
        }
    }
}

/// What an optional path holds.
pub open spec fn path_text(path: Option<&str>) -> Option<Seq<char>> {
    match path {
        Some(p) => Some(p@),
        None => None,
    }
}

/// What an optional action holds.
pub open spec fn action_of(a: Option<Action>) -> Option<ActionView> {
    match a {
        Some(action) => Some(action@),
        None => None,
    }
}

/// The request that is left when a request was taken: `/` without headers.
pub open spec fn empty_request() -> RequestView {
    RequestView { uri: root_uri(), headers: HeaderFields::empty(), entries: Seq::empty() }
}

/// The authority for a server: the user of the old authority, if it names one, and the server.
pub open spec fn new_authority(
    old_authority: Option<AuthorityView>,
    host_and_port: Seq<char>,
) -> Seq<char> {
    match old_authority {
        Some(a) => match find_last(a.text, '@') {
            Some(i) => a.text.take(i as int) + seq!['@'] + host_and_port,
            None => host_and_port,
        },
        None => host_and_port,
    }
}

/// The URI `uri` with another scheme and authority, or which part it lacks.
pub open spec fn with_server(uri: UriView, scheme: Seq<char>, authority: AuthorityView) -> Result<
    UriView,
    Seq<char>,
> {
    let parts = UriView {
        scheme: Some(scheme),
        authority: Some(authority),
        path_and_query: uri.path_and_query,
    };
    match parts_error(parts) {
        Some(e) => Err(e),
        None => Ok(parts),
    }
}

/// The URI `uri` with another scheme and server, or what is wrong with them.
pub open spec fn retarget(uri: UriView, scheme: Seq<char>, host_and_port: Seq<char>) -> Result<
    UriView,
    Seq<char>,
> {
    match scheme_error(scheme) {
        Some(e) => Err(e),
        None => match authority_parse(new_authority(uri.authority, host_and_port)) {
            Err(e) => Err(e),
            Ok(a) => with_server(uri, scheme, a),
        },
    }
}

/// The text of a URI whose path becomes `path`, or `/` if that is empty, and whose query stays.
pub open spec fn modified_target(path: Seq<char>, query: Option<Seq<char>>) -> Seq<char> {
    let p = if path.len() == 0 {
        seq!['/']
    } else {
        path
    };
    match query {
        Some(q) => p + seq!['?'] + q,
        None => p,
    }
}

/// The text that a new path makes of a URI. There is none if the URI has no path, or if there is
/// no new path.
pub open spec fn new_target(uri: UriView, path: Option<Seq<char>>) -> Option<Seq<char>> {
    match (uri.path_and_query, path) {
        (Some(p), Some(s)) => Some(modified_target(s, p.query)),
        _ => None,
    }
}

/// What a new path makes of a URI: the URI read from the new text, or what is wrong with it. It
/// stays as it is where there is no such text.
pub open spec fn modified(uri: UriView, path: Option<Seq<char>>) -> Result<UriView, Seq<char>> {
    match new_target(uri, path) {
        Some(t) => uri_parse(t),
        None => Ok(uri),
    }
}

/// A URI with a new path where that is possible, else as it was.
pub open spec fn modified_or_same(uri: UriView, path: Option<Seq<char>>) -> UriView {
    match modified(uri, path) {
        Ok(u) => u,
        Err(_) => uri,
    }
}

/// Whether `path` and `query` are read as such from the target that they make: where that is plain,
/// or is read at all and no part of it is a fragment.
pub open spec fn reads_as_path(path: Seq<char>, query: Option<Seq<char>>) -> bool {
    let target = modified_target(path, query);
    &&& !path.contains('?')
    &&& is_plain_path(target) || {
        &&& path.len() == 0 || path[0] == '/'
        &&& !path.contains('#')
        &&& query matches Some(q) ==> !q.contains('#')
        &&& uri_parse(target) is Ok
    }
}

/// Where `path` and the query of `before` are read as such, `after` has that path, or `/` if it is
/// empty, and that query.
pub open spec fn keeps_query(before: ContextView, after: ContextView, path: Seq<char>) -> bool {
    before.req.uri.path_and_query matches Some(p) ==> reads_as_path(path, p.query) ==> {
        &&& after.req.uri.path_and_query is Some
        &&& path_of(after.req.uri) == (if path.len() == 0 {
            seq!['/']
        } else {
            path
        })
        &&& after.req.uri.path_and_query->0.query == p.query
    }
}

/// Whether `s` starts with `/` and holds neither a query nor a fragment.
pub open spec fn is_path_alone(s: Seq<char>) -> bool {
    s.len() > 0 && s[0] == '/' && !s.contains('?') && !s.contains('#')
}

/// `path` without `prefix`, if it starts with it.
pub open spec fn stripped(path: Seq<char>, prefix: Seq<char>) -> Option<Seq<char>> {
    if starts_with(path, prefix) {
        Some(path.skip(prefix.len() as int))
    } else {
        None
    }
}

/// A context with another URI.
pub open spec fn with_uri(ctx: ContextView, uri: UriView) -> ContextView {
    ContextView { req: RequestView { uri, ..ctx.req }, ..ctx }
}

/// The scheme for a server: that of its URL, else the one for what the request asks for.
pub open spec fn upstream_scheme(ctx: ContextView, scheme: Option<Seq<char>>) -> Seq<char> {
    match scheme {
        Some(s) => s,
        None => if ctx.ws {
            "ws"@
        } else {
            "http"@
        },
    }
}

/// What is wrong with pointing the request at the server `param`. A `param` that is no URL is
/// not: it gets a reply.
pub open spec fn upstream_error(ctx: ContextView, param: Seq<char>) -> Option<Seq<char>> {
    match parse_url(param) {
        Ok(url) => match retarget(
            ctx.req.uri,
            upstream_scheme(ctx, url.scheme),
            url.host,
        ) {
            Ok(_) => None,
            Err(e) => Some(e),
        },
        Err(_) => None,
    }
}

/// What pointing the request at the server `param` comes to.
pub open spec fn proxied(ctx: ContextView, param: Seq<char>) -> (ContextView, ActionView) {
    match parse_url(param) {
        Err(e) => (ctx, ActionView::Reply(text_reply_view(500, e.spec_message()))),
        Ok(url) => {
            let uri = retarget(ctx.req.uri, upstream_scheme(ctx, url.scheme), url.host)->Ok_0;
            let req = RequestView { uri, ..ctx.req };
            (
                ContextView { ws: false, req: empty_request(), cache: ctx.cache },
                if ctx.ws {
                    ActionView::ProxyWebSocket(req)
                } else if ctx.cache == 0 {
                    ActionView::Proxy(req)
                } else {
                    ActionView::ProxyCached { req, key: proxy_key(uri), ttl: ctx.cache }
                },
            )
        },
    }
}

/// The request that an action passes on to another server.
pub open spec fn passed_on(action: ActionView) -> Option<RequestView> {
    match action {
        ActionView::ProxyWebSocket(req) => Some(req),
        ActionView::Proxy(req) => Some(req),
        ActionView::ProxyCached { req, .. } => Some(req),
        _ => None,
    }
}

/// The authority of the request when it is pointed at the server `param`.
pub open spec fn upstream_authority(ctx: ContextView, param: Seq<char>) -> Seq<char> {
    new_authority(ctx.req.uri.authority, parse_url(param)->Ok_0.host)
}

/// Whether `param` is the URL of a server with a plain name or address, the request has a path, and
/// the user that it may name is plain.
pub open spec fn is_plain_upstream(ctx: ContextView, param: Seq<char>) -> bool {
    &&& parse_url(param) matches Ok(url)
    &&& scheme_error(upstream_scheme(ctx, url.scheme)) is None
    &&& is_plain_authority(upstream_authority(ctx, param))
    &&& ctx.req.uri.path_and_query is Some
}

/// The key under which the reply of another server is kept.
pub open spec fn proxy_key(uri: UriView) -> Seq<char> {
    "rproxy:"@ + uri_text(uri)
}

/// The key under which the reply from a file is kept.
pub open spec fn file_key(path: Seq<char>) -> Seq<char> {
    "file:"@ + path
}

/// A path without the `/` that it may start with.
pub open spec fn relative_path(path: Seq<char>) -> Seq<char> {
    if starts_with(path, "/"@) {
        path.skip(1)
    } else {
        path
    }
}

/// What `wol::MacAddr::from_str` makes of a text.
pub uninterp spec fn mac_parse(s: Seq<char>) -> Option<Seq<u8>>;

/// A hexadecimal digit.
pub open spec fn is_hex(c: char) -> bool {
    '0' <= c <= '9' || 'a' <= c <= 'f' || 'A' <= c <= 'F'
}

/// The number that a hexadecimal digit stands for.
pub open spec fn hex_value(c: char) -> int {
    if c <= '9' {
        c as int - '0' as int
    } else if c <= 'F' {
        c as int - 'A' as int + 10
    } else {
        c as int - 'a' as int + 10
    }
}

/// Six pairs of hexadecimal digits with `:` or `-` between them.
pub open spec fn is_plain_mac(s: Seq<char>) -> bool {
    &&& s.len() == 17
    &&& forall|i: int|
        0 <= i < 17 ==> if i % 3 == 2 {
            #[trigger] s[i] == ':' || s[i] == '-'
        } else {
            is_hex(s[i])
        }
}

/// The bytes that such pairs stand for.
pub open spec fn plain_mac_bytes(s: Seq<char>) -> Seq<u8> {
    Seq::new(6, |i: int| (hex_value(s[3 * i]) * 16 + hex_value(s[3 * i + 1])) as u8)
}

/// The reply to a request to wake a machine, whatever comes of it.
pub open spec fn wake_reply() -> ReplyView {
    text_reply_view(200, "ok"@)
}

/// The hardware address and the address to send from in the parameter: one word or two.
pub open spec fn wake_words(param: Seq<char>) -> Option<(Seq<char>, Option<Seq<char>>)> {
    let args = words(param);
    if args.len() == 1 {
        Some((args[0], None))
    } else if args.len() == 2 {
        Some((args[0], Some(args[1])))
    } else {
        None
    }
}

/// What is done to wake a machine, given what came of reading its hardware address.
pub open spec fn wake_view(mac: Option<Seq<u8>>, bind: Option<Seq<char>>) -> ActionView {
    match mac {
        Some(m) => ActionView::Wake { mac: m, bind, reply: wake_reply() },
        None => ActionView::Reply(wake_reply()),
    }
}

/// What waking a machine comes to.
pub open spec fn woken(param: Seq<char>) -> ActionView {
    match wake_words(param) {
        Some((mac, bind)) => wake_view(mac_parse(mac), bind),
        None => ActionView::Reply(wake_reply()),
    }
}

/// What stops a directive from being carried out.
pub open spec fn directive_fault(
    ctx: ContextView,
    name: Seq<char>,
    param: Seq<char>,
) -> Option<FaultView> {
    if name == "redir"@ {
        if is_header_text(param) {
            None
        } else {
            Some(FaultView::Location)
        }
    } else if name == "reverse_proxy"@ {
        match upstream_error(ctx, param) {
            Some(e) => Some(FaultView::Upstream(e)),
            None => None,
        }
    } else {
        None
    }
}

/// What a directive that can be carried out does to a request, and whether that ends its way.
pub open spec fn directive_step(ctx: ContextView, name: Seq<char>, param: Seq<char>) -> (
    ContextView,
    Option<ActionView>,
) {
    if name == "redir"@ {
        (ctx, Some(ActionView::Reply(redirect_view(param))))
    } else if name == "strip_prefix"@ {
        let path = stripped(path_of(ctx.req.uri), param);
        (with_uri(ctx, modified_or_same(ctx.req.uri, path)), None)
    } else if name == "rewrite"@ {
        (with_uri(ctx, modified_or_same(ctx.req.uri, Some(param))), None)
    } else if name == "cache"@ {
        (
            ContextView {
                cache: match parse_number(param) {
                    Some(n) => n,
                    None => 0,
                },
                ..ctx
            },
            None,
        )
    } else if name == "reverse_proxy"@ {
        (proxied(ctx, param).0, Some(proxied(ctx, param).1))
    } else if name == "file_server"@ {
        (
            ctx,
            Some(
                ActionView::File { root: param, relative: relative_path(path_of(ctx.req.uri)) },
            ),
        )
    } else if name == "wol"@ {
        (ctx, Some(woken(param)))
    } else {
        (ctx, Some(ActionView::Reply(text_reply_view(500, "unknown directive: "@ + name))))
    }
}

/// Where a file is to come from, given whether it is there and its length.
pub open spec fn file_plan(
    ctx: ContextView,
    root: Seq<char>,
    path: Seq<char>,
    exists: bool,
    len: u64,
) -> (ContextView, FilePlanView) {
    if !exists {
        (ctx, FilePlanView::Reply(not_found_view()))
    } else if ctx.cache == 0 || len == 0 || len > CACHE_LIMIT {
        (
            ContextView { req: empty_request(), ..ctx },
            FilePlanView::Serve { root, req: ctx.req },
        )
    } else {
        (ctx, FilePlanView::Cached { key: file_key(path), ttl: ctx.cache })
    }
}

/// The path and the query that go into a target are read from it again, unless they hold the
/// characters that end them.
pub proof fn law_target_keeps_path_and_query(path: Seq<char>, query: Option<Seq<char>>)
    requires
        path.len() > 0 && !path.contains('?') && !path.contains('#'),
        query matches Some(q) ==> !q.contains('#'),
    ensures
        split_path_and_query(modified_target(path, query)).path == path,
        split_path_and_query(modified_target(path, query)).query == query,
        split_path_and_query(modified_target(path, query)).text == modified_target(path, query),
{
    let t = modified_target(path, query);
    assert forall|j: int| 0 <= j < t.len() implies t[j] != '#' by {
        if j < path.len() {
            assert(path.contains(path[j]));
        } else if j > path.len() {
            let q = query->0;
            assert(t[j] == q[j - path.len() - 1]);
            assert(q.contains(q[j - path.len() - 1]));
        }
    }
    lemma_find_unique(t, '#', t.len());
    assert(t.take(t.len() as int) == t);
    assert forall|j: int| 0 <= j < path.len() implies t[j] != '?' by {
        assert(path.contains(path[j]));
    }
    lemma_find_unique(t, '?', path.len());
    assert(t.take(path.len() as int) == path);
    if let Some(q) = query {
        assert(t.skip(path.len() as int + 1) == q);
    }
}

/// A target keeps the path and the query that went into it, where they are read as such.
proof fn lemma_readable_target(path: Seq<char>, uri: UriView)
    ensures
        uri.path_and_query matches Some(p) ==> reads_as_path(path, p.query) ==> {
            let target = modified_target(path, p.query);
            let view = split_path_and_query(target);
            &&& target[0] == '/'
            &&& view.path == (if path.len() == 0 {
                seq!['/']
            } else {
                path
            })
            &&& view.query == p.query
        },
{
    if let Some(p) = uri.path_and_query {
        let t = modified_target(path, p.query);
        if reads_as_path(path, p.query) {
            let head = if path.len() == 0 {
                seq!['/']
            } else {
                path
            };
            assert(t == modified_target(head, p.query));
            assert(t[0] == head[0]);
            assert forall|j: int| 0 <= j < head.len() implies head[j] != '#' && head[j] != '?' by {
                assert(t[j] == head[j]);
                if path.len() > 0 {
                    assert(path.contains(path[j]));
                }
            }
            if let Some(q) = p.query {
                assert forall|j: int| 0 <= j < q.len() implies q[j] != '#' by {
                    assert(t[head.len() + 1 + j] == q[j]);
                    assert(q.contains(q[j]));
                }
            }
            law_target_keeps_path_and_query(head, p.query);
        }
    }
}

/// The same path and the query that is read from a target make the part of the target that is
/// read.
proof fn lemma_target_again(path: Seq<char>, query: Option<Seq<char>>)
    requires
        path.len() > 0 && !path.contains('?') && !path.contains('#'),
    ensures
        ({
            let t = modified_target(path, query);
            modified_target(path, split_path_and_query(t).query) == t.take(find(t, '#') as int)
        }),
{
    let t = modified_target(path, query);
    let i = find(t, '#') as int;
    lemma_find(t, '#');
    assert forall|j: int| 0 <= j < path.len() implies t[j] != '#' && t[j] != '?' by {
        assert(path.contains(path[j]));
    }
    let text = t.take(i);
    lemma_find_unique(text, '?', path.len());
    if query is Some {
        assert(text == path + seq!['?'] + text.skip(path.len() as int + 1));
    } else {
        assert(text == path);
    }
}

/// The names of the directives differ in their lengths, but for two that differ at their start.
pub proof fn lemma_directive_names()
    ensures
        "redir"@.len() == 5 && "redir"@[0] == 'r',
        "cache"@.len() == 5 && "cache"@[0] == 'c',
        "strip_prefix"@.len() == 12,
        "rewrite"@.len() == 7,
        "reverse_proxy"@.len() == 13,
        "file_server"@.len() == 11,
        "wol"@.len() == 3,
{
    reveal_strlit("redir");
    reveal_strlit("cache");
    reveal_strlit("strip_prefix");
    reveal_strlit("rewrite");
    reveal_strlit("reverse_proxy");
    reveal_strlit("file_server");
    reveal_strlit("wol");
}

/// `strip_prefix`, `rewrite` and `cache` never end the way of a request, and every other
/// directive does.
pub proof fn law_which_directives_end(ctx: ContextView, name: Seq<char>, param: Seq<char>)
    ensures
        directive_step(ctx, name, param).1 is None <==> (name == "strip_prefix"@ || name
            == "rewrite"@ || name == "cache"@),
{
    lemma_directive_names();
}

/// A directive that does not end the way of a request changes nothing but its URI or for how
/// long its reply is kept, and never both.
pub proof fn law_directive_changes_one_thing(
    ctx: ContextView,
    name: Seq<char>,
    param: Seq<char>,
)
    requires
        directive_step(ctx, name, param).1 is None,
    ensures
        directive_step(ctx, name, param).0.ws == ctx.ws,
        directive_step(ctx, name, param).0.req.headers == ctx.req.headers,
        directive_step(ctx, name, param).0.req.entries == ctx.req.entries,
        directive_step(ctx, name, param).0.cache == ctx.cache || directive_step(
            ctx,
            name,
            param,
        ).0.req.uri == ctx.req.uri,
{
}

/// A prefix that the path does not start with is no reason to change a request.
pub proof fn law_other_prefix_changes_nothing(ctx: ContextView, prefix: Seq<char>)
    requires
        !starts_with(path_of(ctx.req.uri), prefix),
    ensures
        directive_step(ctx, "strip_prefix"@, prefix) == (ctx, None::<ActionView>),
{
    lemma_directive_names();
}

/// A request that is pointed at another server keeps the user that its URI names.
pub proof fn law_user_is_kept(
    user: Seq<char>,
    old_server: Seq<char>,
    authority: AuthorityView,
    new_server: Seq<char>,
)
    requires
        authority.text == user + seq!['@'] + old_server,
        !old_server.contains('@'),
    ensures
        new_authority(Some(authority), new_server) == user + seq!['@'] + new_server,
{
    let text = authority.text;
    lemma_find_last(text, '@');
    assert(text[user.len() as int] == '@');
    assert(text.contains(text[user.len() as int]));
    let i = find_last(text, '@')->0;
    if i > user.len() {
        assert(text[i as int] == old_server[i - user.len() - 1]);
        assert(old_server.contains(old_server[i - user.len() - 1]));
    }
    assert(text.take(i as int) == user);
}

/// A web socket is never answered from what is kept, and what is kept has a time to be kept for.
pub proof fn law_kept_replies_have_a_time(ctx: ContextView, name: Seq<char>, param: Seq<char>)
    ensures
        directive_step(ctx, name, param).1 matches Some(ActionView::ProxyCached { req, key, ttl })
            ==> !ctx.ws && ttl == ctx.cache && ttl > 0 && key == proxy_key(req.uri),
{
}

/// A request that is passed on has the scheme of the other server, and its path, its query and its
/// headers stay.
pub proof fn law_passed_on_request(ctx: ContextView, param: Seq<char>)
    requires
        parse_url(param) is Ok,
        upstream_error(ctx, param) is None,
    ensures
        passed_on(proxied(ctx, param).1) matches Some(req) && {
            &&& req.headers == ctx.req.headers && req.entries == ctx.req.entries
            &&& req.uri.path_and_query == ctx.req.uri.path_and_query
            &&& req.uri.scheme == Some(upstream_scheme(ctx, parse_url(param)->Ok_0.scheme))
            &&& req.uri.authority is Some && req.uri.path_and_query is Some
            &&& uri_wf(ctx.req.uri) ==> uri_wf(req.uri)
        },
{
}

/// A request for one server is kept under another key than a file.
pub proof fn law_keys_do_not_collide(uri: UriView, path: Seq<char>)
    ensures
        proxy_key(uri) != file_key(path),
{
    reveal_strlit("rproxy:");
    reveal_strlit("file:");
    assert(proxy_key(uri)[0] == 'r');
    assert(file_key(path)[0] == 'f');
}

/// Requests are kept under the same key only if their URIs have the same text, and files only if
/// their paths are the same.
pub proof fn law_keys_tell_targets_apart(u: UriView, v: UriView, p: Seq<char>, q: Seq<char>)
    ensures
        proxy_key(u) == proxy_key(v) ==> uri_text(u) == uri_text(v),
        file_key(p) == file_key(q) ==> p == q,
{
    reveal_strlit("rproxy:");
    reveal_strlit("file:");
    assert(proxy_key(u).skip("rproxy:"@.len() as int) == uri_text(u));
    assert(proxy_key(v).skip("rproxy:"@.len() as int) == uri_text(v));
    assert(file_key(p).skip("file:"@.len() as int) == p);
    assert(file_key(q).skip("file:"@.len() as int) == q);
}

/// A file that is answered from what is kept is one that may be kept.
pub proof fn law_cached_files_are_small(
    ctx: ContextView,
    root: Seq<char>,
    path: Seq<char>,
    exists: bool,
    len: u64,
)
    ensures
        file_plan(ctx, root, path, exists, len).1 matches FilePlanView::Cached { key, ttl }
            ==> exists && 0 < len <= CACHE_LIMIT && ttl > 0 && ttl == ctx.cache,
{
}

/// What the reading of a hardware address came to.
pub open spec fn mac_outcome(r: Option<[u8; 6]>) -> Option<Seq<u8>> {
    match r {
        Some(mac) => Some(mac@),
        None => None,
    }
}

/// `wol::MacAddr::from_str`, by the six bytes of the address. A text of fewer than 11 or more
/// than 17 bytes is none, and six pairs of hexadecimal digits are the bytes they stand for.
#[verifier::external_body]
fn parse_mac(s: &str) -> (r: Option<[u8; 6]>)
    ensures
        mac_outcome(r) == mac_parse(s@),
        r is Some ==> 11 <= encode_utf8(s@).len() <= 17,
        is_plain_mac(s@) ==> mac_outcome(r) == Some(plain_mac_bytes(s@)),
{
    wol::MacAddr::from_str(s).ok().map(|mac| mac.0)
}

/// The text of the authority for a server: the user that the URI may name, and the server.
pub fn authority_for(uri: &Uri, host_and_port: &str) -> (r: String)
    ensures
        r@ == new_authority(uri@.authority, host_and_port@),
{
    let mut text = String::new();
    if let Some(a) = &uri.authority {
        let chars = to_chars(a.text.as_str());
        if let Some(i) = find_last_char(&chars, '@') {
            let user = to_text(&chars, 0, i);
            assert(user@ == a.text@.take(i as int));
            text.append(user.as_str());
            text.push('@');
            assert(text@ == user@ + seq!['@']);
        }
    }
    text.append(host_and_port);
    text
}

/// The URI with another scheme and authority.
pub fn uri_with_server(uri: &Uri, scheme: String, authority: Authority) -> (r: Result<Uri, String>)
    ensures
        r is Ok <==> with_server(uri@, scheme@, authority@) is Ok,
        r matches Ok(u) ==> with_server(uri@, scheme@, authority@)->Ok_0 == u@,
        r matches Err(e) ==> with_server(uri@, scheme@, authority@)->Err_0 == e@,
{
    let mut parts = uri.copy();
    parts.scheme = Some(scheme);
    parts.authority = Some(authority);
    Uri::from_parts(parts)
}

/// What waking a machine takes: its hardware address, and the address to send from if there is
/// one.
pub fn wake_args(param: &str) -> (r: Option<(String, Option<String>)>)
    ensures
        r is Some <==> wake_words(param@) is Some,
        r matches Some((mac, bind)) ==> wake_words(param@) == Some((mac@, text_of(bind))),
{
    let args = split_words(&to_chars(param));
    assert(views(args@).len() == args@.len());
    if args.len() != 1 && args.len() != 2 {
        return None;
    }
    let mac = to_text(&args[0], 0, args[0].len());
    assert(views(args@)[0] == args@[0]@);
    assert(mac@ == args@[0]@);
    if args.len() == 1 {
        return Some((mac, None));
    }
    let bind = to_text(&args[1], 0, args[1].len());
    assert(views(args@)[1] == args@[1]@);
    assert(bind@ == args@[1]@);
    Some((mac, Some(bind)))
}

/// What is done to wake a machine, given what came of reading its hardware address.
pub fn wake_action(mac: Option<[u8; 6]>, bind: Option<String>) -> (r: Action)
    ensures
        r@ == wake_view(mac_outcome(mac), text_of(bind)),
{
    let reply = Reply::text(200, "ok".to_owned());
    match mac {
        Some(mac) => Action::Wake { mac, bind, reply },
        None => Action::Reply(reply),
    }
}

impl Request {
    /// A request for `/` without headers.
    pub fn empty() -> (r: Request)
        ensures
            r@ == empty_request(),
    {
        let headers = no_headers();
        assert(header_entries(headers) == Seq::<(Seq<char>, Seq<u8>)>::empty());
        Request { uri: Uri::root(), headers }
    }
}

impl RequestContext {
    /// Takes the request out of the context.
    fn take_request(&mut self) -> (r: Request)
        ensures
            r == old(self).req,
            final(self)@ == (ContextView { req: empty_request(), ..old(self)@ }),
    {
        let mut req = Request::empty();
        std::mem::swap(&mut req, &mut self.req);
        req
    }

    /// Points the request at another server. The user that its URI may name, its path and its
    /// query stay.
    pub fn update_req_scheme_host_and_port(&mut self, scheme: &str, host_and_port: &str) -> (r:
        Result<(), String>)
        ensures
            r is Ok <==> retarget(old(self)@.req.uri, scheme@, host_and_port@) is Ok,
            r is Ok ==> final(self)@ == with_uri(
                old(self)@,
                retarget(old(self)@.req.uri, scheme@, host_and_port@)->Ok_0,
            ),
            r matches Err(e) ==> final(self)@ == old(self)@ && retarget(
                old(self)@.req.uri,
                scheme@,
                host_and_port@,
            )->Err_0 == e@,
            // The user, the path and the query stay, and the URI is one with all its parts.
            r is Ok ==> {
                &&& uri_wf(old(self)@.req.uri) ==> uri_wf(final(self)@.req.uri)
                &&& final(self)@.req.uri.authority is Some
                &&& final(self)@.req.uri.path_and_query is Some
                &&& final(self)@.req.uri.scheme == Some(scheme@)
                &&& final(self)@.req.uri.authority->0.text == new_authority(
                    old(self)@.req.uri.authority,
                    host_and_port@,
                )
                &&& final(self)@.req.uri.path_and_query == old(self)@.req.uri.path_and_query
            },
            // It succeeds where the request has a path and the server is a plain name or address.
            old(self)@.req.uri.path_and_query is Some && scheme_error(scheme@) is None
                && is_plain_authority(
                new_authority(old(self)@.req.uri.authority, host_and_port@),
            ) ==> r is Ok && final(self)@.req.uri.authority == Some(
                split_authority(new_authority(old(self)@.req.uri.authority, host_and_port@)),
            ),
    {
        let uri = match Self::retargeted(&self.req.uri, scheme, host_and_port) {
            Ok(uri) => uri,
            Err(e) => return Err(e),
        };
        self.req.uri = uri;
        Ok(())
    }

    /// The URI with another scheme and server.
    fn retargeted(uri: &Uri, scheme: &str, host_and_port: &str) -> (r: Result<Uri, String>)
        ensures
            r is Ok <==> retarget(uri@, scheme@, host_and_port@) is Ok,
            r matches Ok(u) ==> retarget(uri@, scheme@, host_and_port@)->Ok_0 == u@,
            r matches Err(e) ==> retarget(uri@, scheme@, host_and_port@)->Err_0 == e@,
            r matches Ok(u) ==> u@.authority->0.text == new_authority(
                uri@.authority,
                host_and_port@,
            ),
            uri@.path_and_query is Some && scheme_error(scheme@) is None && is_plain_authority(
                new_authority(uri@.authority, host_and_port@),
            ) ==> (r matches Ok(u) && u@.authority == Some(
                split_authority(new_authority(uri@.authority, host_and_port@)),
            )),
    {
        let scheme = match scheme_from_str(scheme) {
            Ok(s) => s,
            Err(e) => return Err(e),
        };
        let text = authority_for(uri, host_and_port);
        let authority = match authority_from_str(text.as_str()) {
            Ok(a) => a,
            Err(e) => return Err(e),
        };
        uri_with_server(uri, scheme, authority)
    }

    /// Carries out a directive, given by its name and its parameter. The result is what is to be
    /// done where that ends the way of the request.
    pub fn exec(&mut self, directive: (&str, &str)) -> (r: Option<Action>)
        requires
            directive_fault(old(self)@, directive.0@, directive.1@) is None,
        ensures
            (final(self)@, action_of(r)) == directive_step(
                old(self)@,
                directive.0@,
                directive.1@,
            ),
            uri_wf(old(self)@.req.uri) ==> uri_wf(final(self)@.req.uri),
            directive.0@ == "reverse_proxy"@ && is_plain_upstream(old(self)@, directive.1@)
                ==> passed_on(r->0@)->0.uri.authority == Some(
                split_authority(upstream_authority(old(self)@, directive.1@)),
            ),
    {
        proof {
            lemma_directive_names();
        }
        let (name, param) = directive;
        if same_text(name, "redir") {
            self.redir(param)
        } else if same_text(name, "strip_prefix") {
            self.strip_prefix(param)
        } else if same_text(name, "rewrite") {
            self.rewrite(param)
        } else if same_text(name, "cache") {
            self.cache(param)
        } else if same_text(name, "reverse_proxy") {
            self.reverse_proxy(param)
        } else if same_text(name, "file_server") {
            self.file_server(param)
        } else if same_text(name, "wol") {
            self.wol(param)
        } else {
            Some(Action::Reply(Reply::failure(joined("unknown directive: ", name))))
        }
    }

    /// What stops a directive from being carried out, if anything does.
    pub fn fault(&self, directive: (&str, &str)) -> (r: Option<Fault>)
        ensures
            r is Some <==> directive_fault(self@, directive.0@, directive.1@) is Some,
            r matches Some(f) ==> directive_fault(self@, directive.0@, directive.1@) == Some(f@),
            // Nothing stops a request for a plain server.
            directive.0@ == "reverse_proxy"@ && is_plain_upstream(self@, directive.1@)
                ==> r is None,
    {
        proof {
            lemma_directive_names();
        }
        let (name, param) = directive;
        if same_text(name, "redir") {
            if is_header_value(param) {
                None
            } else {
                Some(Fault::Location)
            }
        } else if same_text(name, "reverse_proxy") {
            match Url::parse(param) {
                Ok(url) => {
                    let scheme = self.scheme_for(url.scheme);
                    match Self::retargeted(&self.req.uri, scheme.as_str(), url.host.as_str()) {
                        Ok(_) => None,
                        Err(e) => Some(Fault::Upstream(e)),
                    }
                },
                Err(_) => None,
            }
        } else {
            None
        }
    }

    /// Carries out a directive unless something stops it. The request then stays as it is.
    pub fn try_exec(&mut self, directive: (&str, &str)) -> (r: Result<Option<Action>, Fault>)
        ensures
            r is Ok <==> directive_fault(old(self)@, directive.0@, directive.1@) is None,
            r matches Ok(a) ==> (final(self)@, action_of(a)) == directive_step(
                old(self)@,
                directive.0@,
                directive.1@,
            ),
            uri_wf(old(self)@.req.uri) ==> uri_wf(final(self)@.req.uri),
            r matches Err(f) ==> final(self)@ == old(self)@ && directive_fault(
                old(self)@,
                directive.0@,
                directive.1@,
            ) == Some(f@),
            // A request for a plain server is passed on to it.
            directive.0@ == "reverse_proxy"@ && is_plain_upstream(old(self)@, directive.1@) ==> {
                &&& r matches Ok(Some(a))
                &&& passed_on(a@) is Some
                &&& passed_on(a@)->0.uri.authority == Some(
                    split_authority(upstream_authority(old(self)@, directive.1@)),
                )
            },
    {
        proof {
            lemma_directive_names();
        }
        match self.fault(directive) {
            Some(f) => Err(f),
            None => Ok(self.exec(directive)),
        }
    }

    /// The scheme for a server.
    fn scheme_for(&self, scheme: Option<String>) -> (r: String)
        ensures
            r@ == upstream_scheme(self@, text_of(scheme)),
    {
        match scheme {
            Some(s) => s,
            None => if self.ws {
                "ws".to_owned()
            } else {
                "http".to_owned()
            },
        }
    }

    /// Redirects the client to `param`.
    pub fn redir(&mut self, param: &str) -> (r: Option<Action>)
        requires
            is_header_text(param@),
        ensures
            final(self)@ == old(self)@,
            action_of(r) == Some(ActionView::Reply(redirect_view(param@))),
    {
        Some(Action::Reply(Reply::redirect(param)))
    }

    /// Gives the request a new path, which `None` leaves as it is.
    pub fn modify_path(&mut self, path: Option<&str>) -> (r: Result<(), String>)
        ensures
            ({
                let outcome = modified(old(self)@.req.uri, path_text(path));
                &&& r is Ok <==> outcome is Ok
                &&& r is Ok ==> final(self)@ == with_uri(old(self)@, outcome->Ok_0)
                &&& r matches Err(e) ==> final(self)@ == old(self)@ && outcome->Err_0 == e@
            }),
            uri_wf(old(self)@.req.uri) ==> uri_wf(final(self)@.req.uri),
            // A target of plain characters is accepted, and one that starts with `/` and is
            // accepted is read as a path and a query, up to a fragment.
            path matches Some(p) ==> (old(self)@.req.uri.path_and_query matches Some(pq) ==> {
                let target = modified_target(p@, pq.query);
                &&& is_plain_path(target) ==> r is Ok
                &&& is_relative(target) ==> r is Err
                &&& r is Ok && target[0] == '/' ==> {
                    &&& final(self)@.req.uri == (UriView {
                        scheme: None,
                        authority: None,
                        path_and_query: Some(split_path_and_query(target)),
                    })
                    &&& uri_parse(target.take(find(target, '#') as int)) == Ok::<
                        UriView,
                        Seq<char>,
                    >(final(self)@.req.uri)
                }
            }),
    {
        match self.target(path) {
            Some(target) => self.set_uri(Uri::parse(target.as_str())),
            None => Ok(()),
        }
    }

    /// The text that a new path makes of the URI.
    pub fn target(&self, path: Option<&str>) -> (r: Option<String>)
        ensures
            text_of(r) == new_target(self@.req.uri, path_text(path)),
    {
        let pq = match &self.req.uri.path_and_query {
            Some(pq) => pq,
            None => return None,
        };
        let path = match path {
            Some(p) => p,
            None => return None,
        };
        let mut target = String::new();
        if path.is_empty() {
            target.push('/');
        } else {
            target.append(path);
        }
        if let Some(query) = &pq.query {
            target.push('?');
            target.append(query.as_str());
        }
        assert(target@ == modified_target(path@, pq@.query));
        Some(target)
    }

    /// Gives the request the URI that was read, if one was.
    pub fn set_uri(&mut self, outcome: Result<Uri, String>) -> (r: Result<(), String>)
        ensures
            r is Ok <==> outcome is Ok,
            outcome matches Ok(u) ==> final(self)@ == with_uri(old(self)@, u@),
            outcome matches Err(e) ==> final(self)@ == old(self)@ && r->Err_0@ == e@,
    {
        match outcome {
            Ok(uri) => {
                self.req.uri = uri;
                Ok(())
            },
            Err(e) => Err(e),
        }
    }

    /// Takes `param` off the start of the path.
    pub fn strip_prefix(&mut self, param: &str) -> (r: Option<Action>)
        ensures
            final(self)@ == with_uri(
                old(self)@,
                modified_or_same(
                    old(self)@.req.uri,
                    stripped(path_of(old(self)@.req.uri), param@),
                ),
            ),
            r is None,
            uri_wf(old(self)@.req.uri) ==> uri_wf(final(self)@.req.uri),
            // Of a path whose rest can be read the rest stays, and so does the query.
            old(self)@.req.uri.path_and_query matches Some(pq) ==> (stripped(pq.path, param@)
                matches Some(rest) ==> keeps_query(old(self)@, final(self)@, rest)),
            // A rest that is relative is not taken.
            old(self)@.req.uri.path_and_query matches Some(pq) ==> (stripped(pq.path, param@)
                matches Some(rest) ==> is_relative(modified_target(rest, pq.query))
                ==> final(self)@ == old(self)@),
    {
        let path = match without_prefix(self.req.uri.path(), param) {
            Some(rest) => Some(rest.to_owned()),
            None => None,
        };
        let _ = match &path {
            Some(rest) => self.modify_path(Some(rest.as_str())),
            None => self.modify_path(None),
        };
        proof {
            if let Some(rest) = path {
                lemma_readable_target(rest@, old(self)@.req.uri);
            }
        }
        None
    }

    /// Makes `param` the path.
    pub fn rewrite(&mut self, param: &str) -> (r: Option<Action>)
        ensures
            final(self)@ == with_uri(
                old(self)@,
                modified_or_same(old(self)@.req.uri, Some(param@)),
            ),
            r is None,
            uri_wf(old(self)@.req.uri) ==> uri_wf(final(self)@.req.uri),
            // A parameter that can be read becomes the path, and the query stays.
            keeps_query(old(self)@, final(self)@, param@),
            // One that is relative is not taken.
            old(self)@.req.uri.path_and_query matches Some(pq) ==> is_relative(
                modified_target(param@, pq.query),
            ) ==> final(self)@ == old(self)@,
            // To make a path the path again changes nothing.
            is_path_alone(param@) ==> with_uri(
                final(self)@,
                modified_or_same(final(self)@.req.uri, Some(param@)),
            ) == final(self)@,
    {
        let _ = self.modify_path(Some(param));
        proof {
            lemma_readable_target(param@, old(self)@.req.uri);
            if let Some(pq) = old(self)@.req.uri.path_and_query {
                if is_path_alone(param@) {
                    lemma_target_again(param@, pq.query);
                }
            }
        }
        None
    }

    /// Has the reply kept for `param` seconds; not at all if that is no number.
    pub fn cache(&mut self, param: &str) -> (r: Option<Action>)
        ensures
            final(self)@ == (ContextView {
                cache: match parse_number(param@) {
                    Some(n) => n,
                    None => 0,
                },
                ..old(self)@
            }),
            r is None,
    {
        self.cache = match parse_u64(param) {
            Some(n) => n,
            None => 0,
        };
        None
    }

    /// Wakes a machine.
    pub fn wol(&mut self, param: &str) -> (r: Option<Action>)
        ensures
            final(self)@ == old(self)@,
            action_of(r) == Some(woken(param@)),
            // An address in the usual form is that of the machine.
            wake_words(param@) matches Some((mac, bind)) ==> is_plain_mac(mac) ==> action_of(r)
                == Some(wake_view(Some(plain_mac_bytes(mac)), bind)),
    {
        match wake_args(param) {
            Some((mac, bind)) => Some(wake_action(parse_mac(mac.as_str()), bind)),
            None => Some(Action::Reply(Reply::text(200, "ok".to_owned()))),
        }
    }

    /// Passes the request on to the server `param`.
    pub fn reverse_proxy(&mut self, param: &str) -> (r: Option<Action>)
        requires
            upstream_error(old(self)@, param@) is None,
        ensures
            final(self)@ == proxied(old(self)@, param@).0,
            action_of(r) == Some(proxied(old(self)@, param@).1),
            // The request that is passed on names the server.
            parse_url(param@) is Ok ==> passed_on(r->0@)->0.uri.authority->0.text
                == upstream_authority(old(self)@, param@),
            is_plain_upstream(old(self)@, param@) ==> passed_on(r->0@)->0.uri.authority == Some(
                split_authority(upstream_authority(old(self)@, param@)),
            ),
    {
        let url = match Url::parse(param) {
            Ok(url) => url,
            Err(e) => return Some(Action::Reply(Reply::failure(e.message()))),
        };
        let scheme = self.scheme_for(url.scheme);
        let _ = self.update_req_scheme_host_and_port(scheme.as_str(), url.host.as_str());
        let ws = self.ws;
        self.ws = false;
        let req = self.take_request();
        if ws {
            return Some(Action::ProxyWebSocket(req));
        }
        if self.cache == 0 {
            return Some(Action::Proxy(req));
        }
        let key = joined("rproxy:", req.uri.to_text().as_str());
        Some(Action::ProxyCached { req, key, ttl: self.cache })
    }

    /// Answers the request with a file below `param`.
    pub fn file_server(&mut self, param: &str) -> (r: Option<Action>)
        ensures
            final(self)@ == old(self)@,
            action_of(r) == Some(
                ActionView::File {
                    root: param@,
                    relative: relative_path(path_of(old(self)@.req.uri)),
                },
            ),
    {
        proof {
            reveal_strlit("/");
        }
        let path = self.req.uri.path();
        let relative = match without_prefix(path, "/") {
            Some(rest) => rest.to_owned(),
            None => path.to_owned(),
        };
        Some(Action::File { root: param.to_owned(), relative })
    }

    /// Decides where the file at `path` is to come from.
    pub fn plan_file(&mut self, root: &str, path: &str, exists: bool, len: u64) -> (r: FilePlan)
        ensures
            (final(self)@, r@) == file_plan(old(self)@, root@, path@, exists, len),
    {
        if !exists {
            return FilePlan::Reply(Reply::not_found());
        }
        if self.cache == 0 || len == 0 || len > CACHE_LIMIT as u64 {
            return FilePlan::Serve { root: root.to_owned(), req: self.take_request() };
        }
        FilePlan::Cached { key: joined("file:", path), ttl: self.cache }
    }
}

/// What a machine is woken with, given what came of reading the address to send from: not at all if
/// there is one and it could not be read.
pub open spec fn woken_from<A>(mac: [u8; 6], bind: Option<Option<A>>) -> Option<
    ([u8; 6], Option<A>),
> {
    match bind {
        None => Some((mac, None::<A>)),
        Some(Some(address)) => Some((mac, Some(address))),
        Some(None) => None,
    }
}

/// Decides whether a machine is woken, given what came of reading the address to send from:
/// not if there is one and it could not be read.
pub fn wake_from<A>(mac: [u8; 6], bind: Option<Option<A>>) -> (r: Option<([u8; 6], Option<A>)>)
    ensures
        r == woken_from(mac, bind),
{
    match bind {
        None => Some((mac, None)),
        Some(Some(address)) => Some((mac, Some(address))),
        Some(None) => None,
    }
}

} // verus!
