//! What is passed on between a client and another server.

use http::{HeaderMap, HeaderValue};
use vstd::prelude::*;
use vstd::string::StringExecFns;
use vstd::utf8::encode_utf8;

use crate::headers::{
    copy_headers, count_names, first_value, has_header, header_fields, header_list,
    header_value_text, is_header_name, is_header_text, is_header_value, list_view,
    remove_header, set_header, values_named, values_of, visible_text, HeaderFields, MAX_SAFE_NAMES,
};
use crate::request_context::Request;
use crate::text::{same_text, text_of};
use crate::uri::{host_of, uri_outcome, uri_parse, Uri, UriView};

verus! {

/// Why a web socket was closed.
#[derive(Debug, PartialEq, Eq)]
pub struct CloseFrame {
    pub code: u16,
    pub reason: String,
}

/// A message to or from the client.
#[derive(Debug, PartialEq, Eq)]
pub enum Message {
    Text(String),
    Binary(Vec<u8>),
    Ping(Vec<u8>),
    Pong(Vec<u8>),
    Close(Option<CloseFrame>),
}

/// Why the other server closed a web socket.
#[derive(Debug, PartialEq, Eq)]
pub struct TCloseFrame {
    pub code: u16,
    pub reason: String,
}

/// A message to or from the other server. A raw frame never comes from it.
#[derive(Debug, PartialEq, Eq)]
pub enum TMessage {
    Text(String),
    Binary(Vec<u8>),
    Ping(Vec<u8>),
    Pong(Vec<u8>),
    Close(Option<TCloseFrame>),
    Frame,
}

/// What happened to a web socket that is relayed.
pub enum RelayEvent {
    /// The other server sent a message.
    FromUpstream(TMessage),
    /// The other server closed or failed.
    UpstreamEnded,
    /// The client sent a message.
    FromClient(Message),
    /// The client closed or failed.
    ClientEnded,
    /// A message was passed on.
    Sent,
    /// A message could not be passed on.
    SendFailed,
}

/// What is to be done next.
pub enum RelayStep {
    ToClient(Message),
    ToUpstream(TMessage),
    Wait,
    Stop,
}

/// Why a request cannot be passed on.
pub enum ProxyError {
    /// Its URI names no server.
    NoHost,
    /// A new value cannot stand in a header.
    HeaderValue,
    /// The referer is not text.
    HeaderText,
    /// The referer is no URI, for this reason.
    Referer(String),
    /// The headers do not fit in a header map.
    TooManyHeaders,
}

/// What a `ProxyError` holds.
pub enum ProxyErrorView {
    NoHost,
    HeaderValue,
    HeaderText,
    Referer(Seq<char>),
    TooManyHeaders,
}

impl View for ProxyError {
    type V = ProxyErrorView;

    open spec fn view(&self) -> ProxyErrorView {
        match self {
            ProxyError::NoHost => ProxyErrorView::NoHost,
            ProxyError::HeaderValue => ProxyErrorView::HeaderValue,
            ProxyError::HeaderText => ProxyErrorView::HeaderText,
            ProxyError::Referer(e) => ProxyErrorView::Referer(e@),
            ProxyError::TooManyHeaders => ProxyErrorView::TooManyHeaders,
        }
    }
}

/// A message of the other server as one for the client.
pub open spec fn for_client(msg: TMessage) -> Message {
    match msg {
        TMessage::Text(t) => Message::Text(t),
        TMessage::Binary(v) => Message::Binary(v),
        TMessage::Ping(v) => Message::Ping(v),
        TMessage::Pong(v) => Message::Pong(v),
        TMessage::Close(Some(f)) => Message::Close(
            Some(CloseFrame { code: f.code, reason: f.reason }),
        ),
        _ => Message::Close(None),
    }
}

/// A message of the client as one for the other server.
pub open spec fn for_upstream(msg: Message) -> TMessage {
    match msg {
        Message::Text(t) => TMessage::Text(t),
        Message::Binary(v) => TMessage::Binary(v),
        Message::Ping(v) => TMessage::Ping(v),
        Message::Pong(v) => TMessage::Pong(v),
        Message::Close(Some(f)) => TMessage::Close(
            Some(TCloseFrame { code: f.code, reason: f.reason }),
        ),
        Message::Close(None) => TMessage::Close(None),
    }
}

/// A message that goes one way and comes back is the same.
pub proof fn law_messages_are_kept(msg: Message, tmsg: TMessage)
    requires
        tmsg !is Frame,
    ensures
        for_client(for_upstream(msg)) == msg,
        for_upstream(for_client(tmsg)) == tmsg,
{
}

/// Turns a message of the other server into one for the client.
pub fn change_msg_to_axum(msg: TMessage) -> (r: Message)
    requires
        msg !is Frame,
    ensures
        r == for_client(msg),
{
    match msg {
        TMessage::Text(t) => Message::Text(t),
        TMessage::Binary(v) => Message::Binary(v),
        TMessage::Ping(v) => Message::Ping(v),
        TMessage::Pong(v) => Message::Pong(v),
        TMessage::Close(close_frame) => match close_frame {
            Some(f) => Message::Close(Some(CloseFrame { code: f.code, reason: f.reason })),
            None => Message::Close(None),
        },
        TMessage::Frame => Message::Close(None),
    }
}

/// Turns a message of the client into one for the other server.
pub fn change_msg_to_tungstenite(msg: Message) -> (r: TMessage)
    ensures
        r == for_upstream(msg),
{
    match msg {
        Message::Text(t) => TMessage::Text(t),
        Message::Binary(v) => TMessage::Binary(v),
        Message::Ping(v) => TMessage::Ping(v),
        Message::Pong(v) => TMessage::Pong(v),
        Message::Close(close_frame) => match close_frame {
            Some(f) => TMessage::Close(Some(TCloseFrame { code: f.code, reason: f.reason })),
            None => TMessage::Close(None),
        },
    }
}

/// What is done next for a web socket that is relayed: each message goes to the other side, until
/// a side ends or a message cannot be passed on.
pub open spec fn relay_step(event: RelayEvent) -> RelayStep {
    match event {
        RelayEvent::FromUpstream(m) => RelayStep::ToClient(for_client(m)),
        RelayEvent::FromClient(m) => RelayStep::ToUpstream(for_upstream(m)),
        RelayEvent::Sent => RelayStep::Wait,
        _ => RelayStep::Stop,
    }
}

/// Decides what is done next for a web socket that is relayed.
pub fn relay(event: RelayEvent) -> (r: RelayStep)
    requires
        !(event matches RelayEvent::FromUpstream(m) && m is Frame),
    ensures
        r == relay_step(event),
{
    match event {
        RelayEvent::FromUpstream(m) => RelayStep::ToClient(change_msg_to_axum(m)),
        RelayEvent::UpstreamEnded => RelayStep::Stop,
        RelayEvent::FromClient(m) => RelayStep::ToUpstream(change_msg_to_tungstenite(m)),
        RelayEvent::ClientEnded => RelayStep::Stop,
        RelayEvent::Sent => RelayStep::Wait,
        RelayEvent::SendFailed => RelayStep::Stop,
    }
}

/// What a relay has done: the messages handed to either side, in order, and whether it stopped.
pub struct Relayed {
    pub to_client: Seq<Message>,
    pub to_upstream: Seq<TMessage>,
    pub stopped: bool,
}

/// What has been done after one more step.
pub open spec fn after_step(done: Relayed, step: RelayStep) -> Relayed {
    match step {
        RelayStep::ToClient(m) => Relayed { to_client: done.to_client.push(m), ..done },
        RelayStep::ToUpstream(m) => Relayed { to_upstream: done.to_upstream.push(m), ..done },
        RelayStep::Wait => done,
        RelayStep::Stop => Relayed { stopped: true, ..done },
    }
}

/// What a relay does for events that come one after the other. Once it has stopped, it does
/// nothing more.
pub open spec fn relay_run(events: Seq<RelayEvent>) -> Relayed
    decreases events.len(),
{
    if events.len() == 0 {
        Relayed { to_client: Seq::empty(), to_upstream: Seq::empty(), stopped: false }
    } else {
        let done = relay_run(events.drop_last());
        if done.stopped {
            done
        } else {
            after_step(done, relay_step(events.last()))
        }
    }
}

/// A side that ended, or a message that could not be passed on.
pub open spec fn ends_relay(event: RelayEvent) -> bool {
    event is UpstreamEnded || event is ClientEnded || event is SendFailed
}

/// The number of events before the first that ends a relay.
pub open spec fn relay_len(events: Seq<RelayEvent>) -> nat
    decreases events.len(),
{
    if events.len() == 0 || ends_relay(events[0]) {
        0
    } else {
        1 + relay_len(events.drop_first())
    }
}

/// The messages of the other server among the events.
pub open spec fn from_upstream(events: Seq<RelayEvent>) -> Seq<TMessage>
    decreases events.len(),
{
    if events.len() == 0 {
        Seq::empty()
    } else {
        match events.last() {
            RelayEvent::FromUpstream(m) => from_upstream(events.drop_last()).push(m),
            _ => from_upstream(events.drop_last()),
        }
    }
}

/// The messages of the client among the events.
pub open spec fn from_client(events: Seq<RelayEvent>) -> Seq<Message>
    decreases events.len(),
{
    if events.len() == 0 {
        Seq::empty()
    } else {
        match events.last() {
            RelayEvent::FromClient(m) => from_client(events.drop_last()).push(m),
            _ => from_client(events.drop_last()),
        }
    }
}

/// No event before `relay_len` ends a relay, and the one at it does.
proof fn lemma_relay_len(events: Seq<RelayEvent>)
    ensures
        relay_len(events) <= events.len(),
        forall|i: int| 0 <= i < relay_len(events) ==> !ends_relay(#[trigger] events[i]),
        relay_len(events) < events.len() ==> ends_relay(events[relay_len(events) as int]),
    decreases events.len(),
{
    if events.len() > 0 && !ends_relay(events[0]) {
        let rest = events.drop_first();
        lemma_relay_len(rest);
        assert forall|i: int| 0 <= i < relay_len(events) implies !ends_relay(
            #[trigger] events[i],
        ) by {
            if i > 0 {
                assert(rest[i - 1] == events[i]);
            }
        }
    }
}

/// A relay whose events end nothing hands every message on.
proof fn lemma_relay_without_end(events: Seq<RelayEvent>)
    requires
        forall|i: int| 0 <= i < events.len() ==> !ends_relay(#[trigger] events[i]),
    ensures
        relay_run(events) == (Relayed {
            to_client: from_upstream(events).map_values(|m: TMessage| for_client(m)),
            to_upstream: from_client(events).map_values(|m: Message| for_upstream(m)),
            stopped: false,
        }),
    decreases events.len(),
{
    let to_client = |m: TMessage| for_client(m);
    let to_upstream = |m: Message| for_upstream(m);
    if events.len() == 0 {
        assert(from_upstream(events).map_values(to_client) == Seq::<Message>::empty());
        assert(from_client(events).map_values(to_upstream) == Seq::<TMessage>::empty());
    } else {
        let init = events.drop_last();
        assert forall|i: int| 0 <= i < init.len() implies !ends_relay(#[trigger] init[i]) by {
            assert(init[i] == events[i]);
        }
        lemma_relay_without_end(init);
        assert(!ends_relay(events[events.len() - 1]));
        match events.last() {
            RelayEvent::FromUpstream(m) => {
                assert(from_upstream(events).map_values(to_client) == from_upstream(
                    init,
                ).map_values(to_client).push(for_client(m)));
            },
            RelayEvent::FromClient(m) => {
                assert(from_client(events).map_values(to_upstream) == from_client(
                    init,
                ).map_values(to_upstream).push(for_upstream(m)));
            },
            _ => {},
        }
    }
}

/// Events behind one that ends a relay change nothing.
proof fn lemma_relay_behind_end(events: Seq<RelayEvent>, n: int)
    requires
        0 <= n <= events.len(),
        relay_run(events.take(n)).stopped,
    ensures
        relay_run(events) == relay_run(events.take(n)),
    decreases events.len() - n,
{
    if n < events.len() {
        assert(events.take(n + 1).drop_last() == events.take(n));
        lemma_relay_behind_end(events, n + 1);
    } else {
        assert(events.take(n) == events);
    }
}

/// Whatever happens to a relayed web socket, each side is handed the messages of the other, in
/// order, with none lost, repeated or added, up to the first event that ends the relay; and it
/// stops exactly there. The last message of either side may be the one whose sending failed.
pub proof fn law_relay_hands_all_on(events: Seq<RelayEvent>)
    ensures
        ({
            let heard = events.take(relay_len(events) as int);
            relay_run(events) == (Relayed {
                to_client: from_upstream(heard).map_values(|m: TMessage| for_client(m)),
                to_upstream: from_client(heard).map_values(|m: Message| for_upstream(m)),
                stopped: exists|i: int| 0 <= i < events.len() && ends_relay(#[trigger] events[i]),
            })
        }),
        forall|i: int| 0 <= i < relay_len(events) ==> !ends_relay(#[trigger] events[i]),
        relay_len(events) < events.len() ==> ends_relay(events[relay_len(events) as int]),
{
    let n = relay_len(events) as int;
    let heard = events.take(n);
    lemma_relay_len(events);
    assert forall|i: int| 0 <= i < heard.len() implies !ends_relay(#[trigger] heard[i]) by {
        assert(heard[i] == events[i]);
    }
    lemma_relay_without_end(heard);
    if n < events.len() {
        assert(events.take(n + 1).drop_last() == heard);
        assert(events.take(n + 1).last() == events[n]);
        lemma_relay_behind_end(events, n + 1);
    } else {
        assert(heard == events);
    }
}

/// The host of a URI with its port, if it has one.
pub open spec fn host_and_port(uri: UriView) -> Seq<char> {
    match uri.authority {
        Some(a) => match a.port {
            Some(p) => a.host + seq![':'] + p,
            None => a.host,
        },
        None => Seq::empty(),
    }
}

/// What is passed on for one header of a web socket request: the host of the URI for a host, and
/// any other value that is text.
pub open spec fn forwarded_value(name: Seq<char>, value: Seq<u8>, uri: UriView) -> Option<
    Seq<char>,
> {
    if name == "host"@ {
        Some(host_and_port(uri))
    } else {
        visible_text(value)
    }
}

/// What is passed on for the headers of a web socket request, in their order.
pub open spec fn forwarded_list(list: Seq<(Seq<char>, Seq<u8>)>, uri: UriView) -> Seq<
    (Seq<char>, Seq<char>),
>
    decreases list.len(),
{
    if list.len() == 0 {
        Seq::empty()
    } else {
        let init = forwarded_list(list.drop_last(), uri);
        match forwarded_value(list.last().0, list.last().1, uri) {
            Some(t) => init.push((list.last().0, t)),
            None => init,
        }
    }
}

/// What is passed on for the values of one header of a web socket request, in their order.
pub open spec fn forwarded(name: Seq<char>, values: Seq<Seq<u8>>, uri: UriView) -> Seq<Seq<char>>
    decreases values.len(),
{
    if values.len() == 0 {
        Seq::empty()
    } else {
        let init = forwarded(name, values.drop_last(), uri);
        match forwarded_value(name, values.last(), uri) {
            Some(t) => init.push(t),
            None => init,
        }
    }
}

/// The values of `name` in a list of names and texts.
pub open spec fn texts_named(list: Seq<(Seq<char>, Seq<char>)>, name: Seq<char>) -> Seq<Seq<char>>
    decreases list.len(),
{
    if list.len() == 0 {
        Seq::empty()
    } else if list.last().0 == name {
        texts_named(list.drop_last(), name).push(list.last().1)
    } else {
        texts_named(list.drop_last(), name)
    }
}

/// What a vector of names and texts holds.
pub open spec fn text_list_view(list: Seq<(String, String)>) -> Seq<(Seq<char>, Seq<char>)> {
    list.map_values(|p: (String, String)| (p.0@, p.1@))
}

/// The header names that are used here are header names.
proof fn lemma_header_names()
    ensures
        is_header_name("host"@),
        is_header_name("referer"@),
        is_header_name("origin"@),
        is_header_name("content-length"@),
        is_header_name("connection"@),
        is_header_name("transfer-encoding"@),
{
    reveal_strlit("host");
    reveal_strlit("referer");
    reveal_strlit("origin");
    reveal_strlit("content-length");
    reveal_strlit("connection");
    reveal_strlit("transfer-encoding");
}

/// For each name, what is passed on for its values is passed on, in their order, and nothing else
/// is.
pub proof fn law_forwarded_by_name(
    list: Seq<(Seq<char>, Seq<u8>)>,
    uri: UriView,
    name: Seq<char>,
)
    ensures
        texts_named(forwarded_list(list, uri), name) == forwarded(
            name,
            values_named(list, name),
            uri,
        ),
    decreases list.len(),
{
    if list.len() > 0 {
        let init = list.drop_last();
        let (n, value) = list.last();
        law_forwarded_by_name(init, uri, name);
        if n == name {
            assert(values_named(list, name).drop_last() == values_named(init, name));
        }
        if let Some(t) = forwarded_value(n, value, uri) {
            assert(forwarded_list(list, uri).drop_last() == forwarded_list(init, uri));
        }
    }
}

/// A name has a value in a list exactly when it stands in it.
proof fn lemma_named_is_listed(list: Seq<(Seq<char>, Seq<u8>)>, name: Seq<char>)
    ensures
        values_named(list, name).len() > 0 <==> exists|j: int|
            0 <= j < list.len() && #[trigger] list[j].0 == name,
    decreases list.len(),
{
    if list.len() > 0 {
        let init = list.drop_last();
        lemma_named_is_listed(init, name);
        if list.last().0 == name {
            assert(list[list.len() - 1].0 == name);
        } else {
            if values_named(init, name).len() > 0 {
                let j = choose|j: int| 0 <= j < init.len() && #[trigger] init[j].0 == name;
                assert(list[j].0 == name);
            }
            if exists|j: int| 0 <= j < list.len() && #[trigger] list[j].0 == name {
                let j = choose|j: int| 0 <= j < list.len() && #[trigger] list[j].0 == name;
                assert(init[j].0 == name);
            }
        }
    }
}

/// What is passed on for listed headers of a request that opens a web socket at the server of
/// `uri`, in their order, or `None` where there is a host among them but none in `uri`.
pub fn ws_headers(list: &Vec<(String, Vec<u8>)>, uri: &Uri) -> (r: Option<Vec<(String, String)>>)
    ensures
        r is None <==> uri@.authority is None && exists|j: int|
            0 <= j < list@.len() && #[trigger] list_view(list@)[j].0 == "host"@,
        r matches Some(out) ==> text_list_view(out@) == forwarded_list(list_view(list@), uri@),
{
    let ghost all = list_view(list@);
    let mut out: Vec<(String, String)> = Vec::new();
    let mut i: usize = 0;
    assert(all.take(0) == Seq::<(Seq<char>, Seq<u8>)>::empty());
    assert(text_list_view(out@) == Seq::<(Seq<char>, Seq<char>)>::empty());
    while i < list.len()
        invariant
            i <= list@.len(),
            all == list_view(list@),
            text_list_view(out@) == forwarded_list(all.take(i as int), uri@),
            uri@.authority is None ==> forall|j: int|
                0 <= j < i ==> #[trigger] all[j].0 != "host"@,
        decreases list@.len() - i,
    {
        let (name, value) = &list[i];
        let ghost seen = all.take(i + 1);
        let ghost before = text_list_view(out@);
        assert(all[i as int] == (name@, value@));
        assert(seen.last() == (name@, value@));
        assert(seen.drop_last() == all.take(i as int));
        let text = if same_text(name.as_str(), "host") {
            match &uri.authority {
                Some(a) => {
                    let mut text = a.host.as_str().to_owned();
                    if let Some(port) = &a.port {
                        text.push(':');
                        text.append(port.as_str());
                        assert(text@ == a.host@ + seq![':'] + port@);
                    }
                    Some(text)
                },
                None => return None,
            }
        } else {
            header_value_text(value)
        };
        match text {
            Some(text) => {
                out.push((name.as_str().to_owned(), text));
                assert(text_list_view(out@) == before.push((name@, text@)));
            },
            None => {},
        }
        i += 1;
    }
    assert(all.take(i as int) == all);
    Some(out)
}

/// The headers of the request that opens the web socket at the other server, in the order of the
/// headers of the request, or `None` where the request has a host but its URI has none.
pub fn ws_proxy(req: &Request) -> (r: Option<Vec<(String, String)>>)
    ensures
        r is None <==> values_of(req@.headers, "host"@).len() > 0 && req@.uri.authority is None,
        r matches Some(out) ==> text_list_view(out@) == forwarded_list(
            req@.entries,
            req@.uri,
        ),
        // So the values that are passed on for each name are these.
        r matches Some(out) ==> forall|name: Seq<char>| #[trigger]
            texts_named(text_list_view(out@), name) == forwarded(
                name,
                values_of(req@.headers, name),
                req@.uri,
            ),
{
    let list = header_list(&req.headers);
    proof {
        let all = list_view(list@);
        lemma_named_is_listed(all, "host"@);
        assert(values_named(all, "host"@) == values_of(req@.headers, "host"@));
        assert forall|name: Seq<char>| #[trigger]
            texts_named(forwarded_list(all, req@.uri), name) == forwarded(
                name,
                values_of(req@.headers, name),
                req@.uri,
            ) by {
            law_forwarded_by_name(all, req@.uri, name);
            assert(values_named(all, name) == values_of(req@.headers, name));
        }
    }
    ws_headers(&list, &req.uri)
}

/// The scheme of a URI with `://` and its host.
pub open spec fn site_of(uri: UriView) -> Seq<char> {
    let scheme = match uri.scheme {
        Some(s) => s,
        None => Seq::empty(),
    };
    let host = match host_of(uri) {
        Some(h) => h,
        None => Seq::empty(),
    };
    scheme + "://"@ + host
}

/// The referer that is passed on: the path and the query of the old one, at the other server.
pub open spec fn new_referer(uri: UriView, referer: UriView) -> Seq<char> {
    site_of(uri) + match referer.path_and_query {
        Some(p) => p.text,
        None => seq!['/'],
    }
}

/// Headers with one value for `name`, if that can stand in a header.
pub open spec fn with_header(
    fields: HeaderFields,
    name: Seq<char>,
    value: Seq<char>,
) -> Result<HeaderFields, ProxyErrorView> {
    if is_header_text(value) {
        Ok(fields.insert(name, seq![encode_utf8(value)]))
    } else {
        Err(ProxyErrorView::HeaderValue)
    }
}

/// The text of the first referer.
pub open spec fn referer_text(fields: HeaderFields) -> Option<Seq<char>> {
    if fields.dom().contains("referer"@) {
        visible_text(fields["referer"@][0])
    } else {
        None
    }
}

/// Headers whose referer, if they have one, is at the server of `uri`, given what the referer is
/// as a URI.
pub open spec fn with_referer(
    fields: HeaderFields,
    uri: UriView,
    referer: Result<UriView, Seq<char>>,
) -> Result<HeaderFields, ProxyErrorView> {
    if fields.dom().contains("referer"@) {
        if referer_text(fields) is None {
            Err(ProxyErrorView::HeaderText)
        } else {
            match referer {
                Err(e) => Err(ProxyErrorView::Referer(e)),
                Ok(r) => with_header(fields, "referer"@, new_referer(uri, r)),
            }
        }
    } else {
        Ok(fields)
    }
}

/// Headers whose origin, if they have one, is the server of `uri`.
pub open spec fn with_origin(fields: HeaderFields, uri: UriView) -> Result<
    HeaderFields,
    ProxyErrorView,
> {
    if fields.dom().contains("origin"@) {
        with_header(fields, "origin"@, site_of(uri))
    } else {
        Ok(fields)
    }
}

/// The headers of a request that is passed on to the server of its URI: that server is the host,
/// and referer and origin are at it. What the referer is as a URI is given.
pub open spec fn proxy_headers_given(
    fields: HeaderFields,
    uri: UriView,
    referer: Result<UriView, Seq<char>>,
) -> Result<HeaderFields, ProxyErrorView> {
    match host_of(uri) {
        None => Err(ProxyErrorView::NoHost),
        Some(host) => match with_header(fields, "host"@, host) {
            Err(e) => Err(e),
            Ok(f) => match with_referer(f, uri, referer) {
                Err(e) => Err(e),
                Ok(g) => with_origin(g, uri),
            },
        },
    }
}

/// The headers of a request that is passed on to the server of its URI.
pub open spec fn proxy_headers(fields: HeaderFields, uri: UriView) -> Result<
    HeaderFields,
    ProxyErrorView,
> {
    proxy_headers_given(fields, uri, uri_parse(referer_text(fields)->0))
}

/// Puts one value in the place of all values of a header.
fn put_header(map: &mut HeaderMap<HeaderValue>, name: &'static str, value: &str) -> (r: Result<
    (),
    ProxyError,
>)
    requires
        is_header_name(name@),
    ensures
        r is Ok ==> with_header(header_fields(*old(map)), name@, value@) == Ok::<
            HeaderFields,
            ProxyErrorView,
        >(header_fields(*final(map))),
        r matches Err(e) ==> e@ is TooManyHeaders || with_header(
            header_fields(*old(map)),
            name@,
            value@,
        ) == Err::<HeaderFields, ProxyErrorView>(e@),
        r matches Err(e) ==> e@ is TooManyHeaders ==> is_header_text(value@) && !has_few_names(
            header_fields(*old(map)),
            MAX_SAFE_NAMES as nat,
        ),
{
    if !is_header_value(value) {
        return Err(ProxyError::HeaderValue);
    }
    match set_header(map, name, value) {
        Ok(()) => Ok(()),
        Err(_) => Err(ProxyError::TooManyHeaders),
    }
}

/// Whether there are at most `n` names.
pub open spec fn has_few_names(fields: HeaderFields, n: nat) -> bool {
    fields.dom().finite() && fields.dom().len() <= n
}

/// Whether the headers of a request are so few that they do not keep it from being passed on.
pub fn has_room(req: &Request) -> (r: bool)
    ensures
        r == has_few_names(req@.headers, (MAX_SAFE_NAMES - 1) as nat),
{
    count_names(&req.headers) < MAX_SAFE_NAMES
}

/// Whether `r` is the outcome `expected`, or a failure for want of room in a header map that has
/// about `MAX_SAFE_NAMES` names or more.
pub open spec fn proxy_outcome(
    r: Result<HeaderMap<HeaderValue>, ProxyError>,
    expected: Result<HeaderFields, ProxyErrorView>,
    fields: HeaderFields,
) -> bool {
    match r {
        Ok(map) => expected is Ok && expected->Ok_0 == header_fields(map),
        Err(ProxyError::TooManyHeaders) => !has_few_names(fields, (MAX_SAFE_NAMES - 1) as nat),
        Err(e) => expected is Err && expected->Err_0 == e@,
    }
}

/// The site of a URI.
fn site(uri: &Uri) -> (r: String)
    ensures
        r@ == site_of(uri@),
{
    let mut text = String::new();
    if let Some(scheme) = &uri.scheme {
        text.append(scheme.as_str());
    }
    text.append("://");
    if let Some(host) = uri.host() {
        text.append(host);
    }
    text
}

/// The text of the first referer of a request.
pub fn referer_of(req: &Request) -> (r: Option<String>)
    ensures
        text_of(r) == referer_text(req@.headers),
{
    proof {
        lemma_header_names();
    }
    match first_value(&req.headers, "referer") {
        Some(value) => header_value_text(&value),
        None => None,
    }
}

/// The headers with which a request is passed on to the server of its URI, given what its referer
/// is as a URI, if it has one. It fails for want of room only if there are very many names.
pub fn http_proxy_given(req: &Request, referer: Result<Uri, String>) -> (r: Result<
    HeaderMap<HeaderValue>,
    ProxyError,
>)
    ensures
        proxy_outcome(
            r,
            proxy_headers_given(req@.headers, req@.uri, uri_outcome(referer)),
            req@.headers,
        ),
{
    proof {
        lemma_header_names();
        reveal_strlit("host");
        reveal_strlit("referer");
        assert("host"@.len() == 4 && "referer"@.len() == 7);
    }
    let mut headers = copy_headers(&req.headers);
    let host = match req.uri.host() {
        Some(host) => host,
        None => return Err(ProxyError::NoHost),
    };
    match put_header(&mut headers, "host", host) {
        Ok(()) => {},
        Err(e) => return Err(e),
    }
    if has_header(&headers, "referer") {
        if referer_of(req).is_none() {
            return Err(ProxyError::HeaderText);
        }
        let referer = match referer {
            Ok(uri) => uri,
            Err(e) => return Err(ProxyError::Referer(e)),
        };
        let mut new = site(&req.uri);
        match &referer.path_and_query {
            Some(p) => {
                new.append(p.text.as_str());
            },
            None => {
                new.push('/');
                assert(new@ == site_of(req@.uri) + seq!['/']);
            },
        }
        match put_header(&mut headers, "referer", new.as_str()) {
            Ok(()) => {},
            Err(e) => return Err(e),
        }
    }
    if has_header(&headers, "origin") {
        let ghost before = header_fields(headers);
        remove_header(&mut headers, "origin");
        let text = site(&req.uri);
        match put_header(&mut headers, "origin", text.as_str()) {
            Ok(()) => {},
            Err(e) => return Err(e),
        }
        assert(before.remove("origin"@).insert("origin"@, seq![encode_utf8(text@)])
            == before.insert("origin"@, seq![encode_utf8(text@)]));
    }
    Ok(headers)
}

/// The headers with which a request is passed on to the server of its URI.
pub fn http_proxy(req: &Request) -> (r: Result<HeaderMap<HeaderValue>, ProxyError>)
    ensures
        proxy_outcome(r, proxy_headers(req@.headers, req@.uri), req@.headers),
{
    proof {
        reveal_strlit("host");
        reveal_strlit("referer");
        assert("host"@.len() != "referer"@.len());
    }
    let referer = match referer_of(req) {
        Some(text) => Uri::parse(text.as_str()),
        None => Ok(Uri::root()),
    };
    http_proxy_given(req, referer)
}

/// The headers of a reply of the other server that are passed on: those that speak of the
/// connection to it are left out.
pub open spec fn reply_headers(fields: HeaderFields) -> HeaderFields {
    fields.remove("content-length"@).remove("connection"@).remove("transfer-encoding"@)
}

/// Leaves out of the headers of a reply those that speak of the connection it came on.
pub fn http_proxy_reply(headers: &mut HeaderMap<HeaderValue>)
    ensures
        header_fields(*final(headers)) == reply_headers(header_fields(*old(headers))),
{
    proof {
        lemma_header_names();
    }
    remove_header(headers, "content-length");
    remove_header(headers, "connection");
    remove_header(headers, "transfer-encoding");
}

/// A request that is passed on has the server of its URI as its only host, a referer or an
/// origin only if it had one, and all its other headers unchanged.
pub proof fn law_other_headers_are_kept(fields: HeaderFields, uri: UriView, name: Seq<char>)
    ensures
        proxy_headers(fields, uri) matches Ok(g) ==> {
            &&& host_of(uri) is Some && values_of(g, "host"@) == seq![
                encode_utf8(host_of(uri)->0),
            ]
            &&& name != "host"@ ==> (g.dom().contains(name) <==> fields.dom().contains(name))
            &&& name != "host"@ && name != "referer"@ && name != "origin"@ ==> values_of(g, name)
                == values_of(fields, name)
        },
{
    reveal_strlit("host");
    reveal_strlit("referer");
    reveal_strlit("origin");
    assert("host"@.len() == 4 && "referer"@.len() == 7 && "origin"@.len() == 6);
}

/// What a request that is passed on says of where it came from is at the server of its URI: the
/// path and the query of its referer stay, and of its origin nothing does.
pub proof fn law_referer_and_origin_move(fields: HeaderFields, uri: UriView)
    ensures
        proxy_headers(fields, uri) matches Ok(g) ==> {
            &&& fields.dom().contains("referer"@) ==> {
                let text = referer_text(fields);
                &&& text is Some && uri_parse(text->0) is Ok
                &&& values_of(g, "referer"@) == seq![
                    encode_utf8(new_referer(uri, uri_parse(text->0)->Ok_0)),
                ]
            }
            &&& fields.dom().contains("origin"@) ==> values_of(g, "origin"@) == seq![
                encode_utf8(site_of(uri)),
            ]
        },
{
    reveal_strlit("host");
    reveal_strlit("referer");
    reveal_strlit("origin");
    assert("host"@.len() == 4 && "referer"@.len() == 7 && "origin"@.len() == 6);
}

/// A reply that is passed on lacks the headers that speak of the connection it came on, and has
/// all others unchanged.
pub proof fn law_reply_keeps_other_headers(fields: HeaderFields, name: Seq<char>)
    ensures
        values_of(reply_headers(fields), name) == (if name == "content-length"@ || name
            == "connection"@ || name == "transfer-encoding"@ {
            Seq::empty()
        } else {
            values_of(fields, name)
        }),
{
}

impl ProxyError {
    /// What the error says.
    pub open spec fn spec_message(self) -> Seq<char> {
        match self@ {
            ProxyErrorView::NoHost => "http_proxy: host is none"@,
            ProxyErrorView::HeaderValue => "failed to parse header value"@,
            ProxyErrorView::HeaderText => "failed to convert header to a str"@,
            ProxyErrorView::Referer(e) => e,
            ProxyErrorView::TooManyHeaders => "size overflows MAX_SIZE"@,
        }
    }

    /// What the error says.
    pub fn message(self) -> (r: String)
        ensures
            r@ == self.spec_message(),
    {
        match self {
            ProxyError::NoHost => "http_proxy: host is none".to_owned(),
            ProxyError::HeaderValue => "failed to parse header value".to_owned(),
            ProxyError::HeaderText => "failed to convert header to a str".to_owned(),
            ProxyError::Referer(e) => e,
            ProxyError::TooManyHeaders => "size overflows MAX_SIZE".to_owned(),
        }
    }
}

} // verus!
