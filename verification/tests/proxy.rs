use http::{HeaderMap, HeaderName, HeaderValue};
use tinyweb::headers::header_value_text;
use tinyweb::proxy::{
    change_msg_to_axum, change_msg_to_tungstenite, has_room, http_proxy, http_proxy_given,
    http_proxy_reply, referer_of, relay, ws_headers, ws_proxy, CloseFrame, Message, ProxyError,
    RelayEvent, RelayStep, TCloseFrame, TMessage,
};
use tinyweb::request_context::Request;
use tinyweb::uri::Uri;

fn uri(text: &str) -> Uri {
    Uri::parse(text).ok().expect(text)
}

fn request(target: &str, headers: &[(&str, &[u8])]) -> Request {
    let mut map = HeaderMap::new();
    for (name, value) in headers {
        let name = HeaderName::from_bytes(name.as_bytes()).expect("name");
        map.append(name, HeaderValue::from_bytes(value).expect("value"));
    }
    Request { uri: uri(target), headers: map }
}

fn message(req: &Request) -> String {
    match http_proxy(req) {
        Ok(_) => panic!("passed on"),
        Err(e) => e.message(),
    }
}

#[test]
fn messages_of_the_other_server() {
    for (theirs, ours) in [
        (TMessage::Text("t".to_owned()), Message::Text("t".to_owned())),
        (TMessage::Binary(vec![1, 2]), Message::Binary(vec![1, 2])),
        (TMessage::Ping(vec![3]), Message::Ping(vec![3])),
        (TMessage::Pong(vec![]), Message::Pong(vec![])),
        (TMessage::Close(None), Message::Close(None)),
        (
            TMessage::Close(Some(TCloseFrame { code: 1000, reason: "bye".to_owned() })),
            Message::Close(Some(CloseFrame { code: 1000, reason: "bye".to_owned() })),
        ),
    ] {
        assert_eq!(change_msg_to_axum(theirs), ours);
    }
}

#[test]
fn messages_of_the_client() {
    for (ours, theirs) in [
        (Message::Text("t".to_owned()), TMessage::Text("t".to_owned())),
        (Message::Binary(vec![1, 2]), TMessage::Binary(vec![1, 2])),
        (Message::Ping(vec![3]), TMessage::Ping(vec![3])),
        (Message::Pong(vec![]), TMessage::Pong(vec![])),
        (Message::Close(None), TMessage::Close(None)),
        (
            Message::Close(Some(CloseFrame { code: 4999, reason: "é".to_owned() })),
            TMessage::Close(Some(TCloseFrame { code: 4999, reason: "é".to_owned() })),
        ),
    ] {
        assert_eq!(change_msg_to_tungstenite(ours), theirs);
    }
}

#[test]
fn messages_go_and_come_back() {
    let message = Message::Close(Some(CloseFrame { code: 1001, reason: "away".to_owned() }));
    let copy = Message::Close(Some(CloseFrame { code: 1001, reason: "away".to_owned() }));
    assert_eq!(change_msg_to_axum(change_msg_to_tungstenite(message)), copy);
}

#[test]
fn relay_passes_messages_on() {
    match relay(RelayEvent::FromUpstream(TMessage::Text("a".to_owned()))) {
        RelayStep::ToClient(m) => assert_eq!(m, Message::Text("a".to_owned())),
        _ => panic!("not passed on"),
    }
    match relay(RelayEvent::FromClient(Message::Close(None))) {
        RelayStep::ToUpstream(m) => assert_eq!(m, TMessage::Close(None)),
        _ => panic!("not passed on"),
    }
    assert!(matches!(relay(RelayEvent::Sent), RelayStep::Wait));
    assert!(matches!(relay(RelayEvent::SendFailed), RelayStep::Stop));
    assert!(matches!(relay(RelayEvent::UpstreamEnded), RelayStep::Stop));
    assert!(matches!(relay(RelayEvent::ClientEnded), RelayStep::Stop));
}

fn run(events: Vec<RelayEvent>) -> (Vec<Message>, Vec<TMessage>, usize) {
    let mut to_client = vec![];
    let mut to_upstream = vec![];
    let mut heard = 0;
    for event in events {
        match relay(event) {
            RelayStep::ToClient(m) => to_client.push(m),
            RelayStep::ToUpstream(m) => to_upstream.push(m),
            RelayStep::Wait => {}
            RelayStep::Stop => break,
        }
        heard += 1;
    }
    (to_client, to_upstream, heard)
}

#[test]
fn relay_hands_all_on_until_it_ends() {
    for end in [RelayEvent::UpstreamEnded, RelayEvent::ClientEnded, RelayEvent::SendFailed] {
        let events = vec![
            RelayEvent::FromUpstream(TMessage::Text("a".to_owned())),
            RelayEvent::Sent,
            RelayEvent::FromClient(Message::Ping(vec![1])),
            RelayEvent::Sent,
            RelayEvent::FromUpstream(TMessage::Text("a".to_owned())),
            RelayEvent::Sent,
            RelayEvent::FromUpstream(TMessage::Pong(vec![1])),
            end,
            RelayEvent::FromClient(Message::Text("late".to_owned())),
        ];
        let (to_client, to_upstream, heard) = run(events);
        assert_eq!(
            to_client,
            [
                Message::Text("a".to_owned()),
                Message::Text("a".to_owned()),
                Message::Pong(vec![1]),
            ]
        );
        assert_eq!(to_upstream, [TMessage::Ping(vec![1])]);
        assert_eq!(heard, 7);
    }
}

#[test]
fn web_socket_headers() {
    let req = request(
        "ws://u@up:81/x",
        &[
            ("Host", b"old"),
            ("x-a", b"1"),
            ("x-a", b"2"),
            ("x-bad", b"\xff"),
            ("x-tab", b"a\tb"),
        ],
    );
    let mut list = ws_proxy(&req).expect("headers");
    list.sort();
    let expected: Vec<(String, String)> = [
        ("host", "up:81"),
        ("x-a", "1"),
        ("x-a", "2"),
        ("x-tab", "a\tb"),
    ]
    .iter()
    .map(|(n, v)| ((*n).to_owned(), (*v).to_owned()))
    .collect();
    assert_eq!(list, expected);
}

#[test]
fn web_socket_headers_in_their_order() {
    let entry = |name: &str, value: &[u8]| (name.to_owned(), value.to_vec());
    let list = vec![
        entry("b", b"1"),
        entry("host", b"old"),
        entry("a", b"2"),
        entry("c", b"\xff"),
        entry("b", b"3"),
        entry("host", b"\xff"),
    ];
    let text = |name: &str, value: &str| (name.to_owned(), value.to_owned());
    assert_eq!(
        ws_headers(&list, &uri("ws://up:81/")),
        Some(vec![
            text("b", "1"),
            text("host", "up:81"),
            text("a", "2"),
            text("b", "3"),
            text("host", "up:81"),
        ])
    );
    assert_eq!(ws_headers(&list, &uri("/x")), None);
    assert_eq!(ws_headers(&list[..1].to_vec(), &uri("/x")), Some(vec![text("b", "1")]));
    assert_eq!(ws_headers(&vec![], &uri("/x")), Some(vec![]));
}

#[test]
fn web_socket_headers_in_the_order_of_the_request() {
    let req = request("ws://up/", &[("b", b"1"), ("host", b"old"), ("a", b"2")]);
    let names: Vec<String> =
        ws_proxy(&req).expect("headers").into_iter().map(|(name, _)| name).collect();
    let listed: Vec<&str> = req.headers.iter().map(|(name, _)| name.as_str()).collect();
    assert_eq!(names, listed);
}

#[test]
fn web_socket_host_without_a_port() {
    let req = request("ws://up/", &[("host", b"old")]);
    assert_eq!(ws_proxy(&req), Some(vec![("host".to_owned(), "up".to_owned())]));
}

#[test]
fn web_socket_without_a_server() {
    assert_eq!(ws_proxy(&request("/x", &[("host", b"old")])), None);
    assert_eq!(
        ws_proxy(&request("/x", &[("a", b"b")])),
        Some(vec![("a".to_owned(), "b".to_owned())])
    );
}

#[test]
fn host_referer_and_origin_move() {
    let req = request(
        "https://up:81/x",
        &[
            ("host", b"old"),
            ("host", b"older"),
            ("referer", b"http://old/p?q#f"),
            ("referer", b"second"),
            ("origin", b"http://old"),
            ("x-a", b"1"),
            ("x-a", b"\xff"),
        ],
    );
    let headers = http_proxy(&req).ok().expect("headers");
    let values = |name: &str| -> Vec<Vec<u8>> {
        headers.get_all(name).iter().map(|v| v.as_bytes().to_vec()).collect()
    };
    assert_eq!(values("host"), [b"up".to_vec()]);
    assert_eq!(values("referer"), [b"https://up/p?q".to_vec()]);
    assert_eq!(values("origin"), [b"https://up".to_vec()]);
    assert_eq!(values("x-a"), [b"1".to_vec(), b"\xff".to_vec()]);
    assert_eq!(headers.keys_len(), 4);
    assert_eq!(req.headers.keys_len(), 4);
}

#[test]
fn referer_and_origin_are_not_added() {
    let headers = http_proxy(&request("http://up/x", &[("x", b"y")])).ok().expect("headers");
    assert_eq!(headers.len(), 2);
    assert_eq!(headers["host"], "up");
    assert_eq!(headers["x"], "y");
}

#[test]
fn referer_without_a_path() {
    let headers =
        http_proxy(&request("http://up/x", &[("referer", b"old")])).ok().expect("headers");
    assert_eq!(headers["referer"], "http://up/");
    let headers =
        http_proxy(&request("http://up/x", &[("referer", b"http://old?q")])).ok().expect("headers");
    assert_eq!(headers["referer"], "http://up?q");
}

#[test]
fn server_without_a_scheme() {
    let headers = http_proxy(&request("up", &[("origin", b"null")])).ok().expect("headers");
    assert_eq!(headers["host"], "up");
    assert_eq!(headers["origin"], "://up");
}

#[test]
fn request_that_cannot_be_passed_on() {
    assert_eq!(message(&request("/x", &[])), "http_proxy: host is none");
    assert_eq!(
        message(&request("http://up/", &[("referer", b"http://\xff/")])),
        "failed to convert header to a str"
    );
    assert_eq!(
        message(&request("http://up/", &[("referer", b"http://a b/")])),
        "invalid uri character"
    );
    let mut req = request("http://up/", &[]);
    if let Some(a) = &mut req.uri.authority {
        a.host = "a\nb".to_owned();
    }
    assert!(matches!(http_proxy(&req), Err(ProxyError::HeaderValue)));
    assert_eq!(message(&req), "failed to parse header value");
}

#[test]
fn too_many_headers_do_not_fit() {
    let mut req = request("http://up/", &[]);
    let mut n: u32 = 0;
    loop {
        let name = HeaderName::from_bytes(format!("x-{}", n).as_bytes()).expect("name");
        if req.headers.try_insert(name, HeaderValue::from_static("v")).is_err() {
            break;
        }
        n += 1;
    }
    assert!(n > 6553);
    assert!(!has_room(&req));
    assert!(has_room(&request("http://up/", &[("a", b"1"), ("a", b"2")])));
    match http_proxy(&req) {
        Err(ProxyError::TooManyHeaders) => {}
        _ => panic!("they fit"),
    }
    assert_eq!(message(&req), "size overflows MAX_SIZE");
}

#[test]
fn errors_agree_with_http() {
    let e = HeaderValue::from_str("\n").err().expect("error");
    assert_eq!(e.to_string(), ProxyError::HeaderValue.message());
    let value = HeaderValue::from_bytes(b"\xff").expect("value");
    let e = value.to_str().err().expect("error");
    assert_eq!(e.to_string(), ProxyError::HeaderText.message());
}

#[test]
fn headers_with_a_given_referer() {
    let req = request("http://up/x", &[("referer", b"anything")]);
    assert_eq!(referer_of(&req).as_deref(), Some("anything"));
    let headers = http_proxy_given(&req, Ok(uri("/p?q"))).ok().expect("headers");
    assert_eq!(headers["referer"], "http://up/p?q");
    match http_proxy_given(&req, Err("wrong".to_owned())) {
        Err(e) => assert_eq!(e.message(), "wrong"),
        Ok(_) => panic!("passed on"),
    }
    let req = request("http://up/x", &[]);
    assert_eq!(referer_of(&req), None);
    let headers = http_proxy_given(&req, Err("wrong".to_owned())).ok().expect("headers");
    assert_eq!(headers.len(), 1);
}

#[test]
fn reply_headers_of_the_connection_are_left_out() {
    let mut headers = HeaderMap::new();
    for name in ["content-length", "connection", "transfer-encoding", "content-type", "x-a"] {
        headers.append(HeaderName::from_static(name), HeaderValue::from_static("1"));
        headers.append(HeaderName::from_static(name), HeaderValue::from_static("2"));
    }
    http_proxy_reply(&mut headers);
    assert_eq!(headers.keys_len(), 2);
    assert_eq!(headers.get_all("content-type").iter().count(), 2);
    assert_eq!(headers.get_all("x-a").iter().count(), 2);
}

#[test]
fn header_values_as_text() {
    assert_eq!(header_value_text(&b"a~ \t!".to_vec()).as_deref(), Some("a~ \t!"));
    assert_eq!(header_value_text(&vec![]).as_deref(), Some(""));
    for byte in [0u8, 8, 10, 31, 127, 128, 255] {
        assert_eq!(header_value_text(&vec![byte]), None);
    }
    for byte in 0..=255u8 {
        if let Ok(value) = HeaderValue::from_bytes(&[byte]) {
            assert_eq!(
                header_value_text(&vec![byte]),
                value.to_str().ok().map(|s| s.to_owned())
            );
        }
    }
}
