use http::{HeaderMap, HeaderValue};
use tinyweb::reply::{Reply, ReplyBody};
use tinyweb::request_context::{
    authority_for, uri_with_server, wake_action, wake_args, wake_from, Action, Fault, FilePlan,
    Request, RequestContext,
};
use tinyweb::uri::{Authority, PathAndQuery, Uri};

fn uri(text: &str) -> Uri {
    match Uri::parse(text) {
        Ok(u) => u,
        Err(e) => panic!("{}: {}", text, e),
    }
}

fn context(text: &str) -> RequestContext {
    let mut headers = HeaderMap::new();
    headers.insert("x-mark", HeaderValue::from_static("1"));
    RequestContext { ws: false, req: Request { uri: uri(text), headers }, cache: 0 }
}

fn text_of(reply: Reply) -> (u16, String) {
    assert!(reply.headers.is_empty());
    match reply.body {
        ReplyBody::Text(t) => (reply.status, t),
        _ => panic!("no text"),
    }
}

fn reply(action: Option<Action>) -> Reply {
    match action {
        Some(Action::Reply(r)) => r,
        _ => panic!("no reply"),
    }
}

#[test]
fn uri_of_a_path() {
    let u = uri("/a/b?c=d&e?f#g");
    assert!(u.scheme.is_none());
    assert!(u.authority.is_none());
    let p = u.path_and_query.as_ref().expect("path");
    assert_eq!(p.text, "/a/b?c=d&e?f");
    assert_eq!(p.path, "/a/b");
    assert_eq!(p.query.as_deref(), Some("c=d&e?f"));
    assert_eq!(u.path(), "/a/b");
    assert_eq!(u.host(), None);
    assert_eq!(u.to_text(), "/a/b?c=d&e?f");
}

#[test]
fn uri_with_all_parts() {
    let u = uri("http://me@example.org:80?q");
    assert_eq!(u.scheme.as_deref(), Some("http"));
    let a = u.authority.as_ref().expect("authority");
    assert_eq!(a.text, "me@example.org:80");
    assert_eq!(a.host, "example.org");
    assert_eq!(a.port.as_deref(), Some("80"));
    let p = u.path_and_query.as_ref().expect("path");
    assert_eq!(p.text, "?q");
    assert_eq!(p.path, "/");
    assert_eq!(p.query.as_deref(), Some("q"));
    assert_eq!(u.host(), Some("example.org"));
    assert_eq!(u.to_text(), "http://me@example.org:80/?q");
}

#[test]
fn uri_of_an_authority_and_of_a_star() {
    let u = uri("example.org");
    assert!(u.scheme.is_none() && u.path_and_query.is_none());
    assert_eq!(u.authority.as_ref().map(|a| a.port.is_none()), Some(true));
    assert_eq!(u.path(), "");
    assert_eq!(u.to_text(), "example.org");
    let u = uri("*");
    assert_eq!(u.path(), "*");
    assert!(u.authority.is_none());
}

#[test]
fn uri_errors() {
    for (text, error) in [
        ("", "empty string"),
        ("/a b", "invalid uri character"),
        ("a/b", "invalid format"),
        ("http://", "empty string"),
        ("http://a:1:2/", "invalid authority"),
    ] {
        match Uri::parse(text) {
            Ok(_) => panic!("{}", text),
            Err(e) => assert_eq!(e, error),
        }
    }
    let long = format!("/{}", "a".repeat(65533));
    assert!(Uri::parse(&long).is_ok());
    match Uri::parse(&format!("{}a", long)) {
        Ok(_) => panic!("too long"),
        Err(e) => assert_eq!(e, "uri too long"),
    }
}

#[test]
fn uri_parts_are_put_together() {
    let authority = || {
        Some(Authority { text: "h".to_owned(), host: "h".to_owned(), port: None })
    };
    let path = || {
        Some(PathAndQuery { text: "/".to_owned(), path: "/".to_owned(), query: None })
    };
    let scheme = || Some("http".to_owned());
    let put = |scheme, authority, path_and_query| {
        match Uri::from_parts(Uri { scheme, authority, path_and_query }) {
            Ok(u) => u.to_text(),
            Err(e) => e,
        }
    };
    assert_eq!(put(scheme(), authority(), path()), "http://h/");
    assert_eq!(put(None, authority(), None), "h");
    assert_eq!(put(None, None, path()), "/");
    assert_eq!(put(None, None, None), "");
    assert_eq!(put(scheme(), None, path()), "authority missing");
    assert_eq!(put(scheme(), authority(), None), "path missing");
    assert_eq!(put(None, authority(), path()), "scheme missing");
}

#[test]
fn uri_agrees_with_http() {
    let texts =
        ["/", "/a?b", "/a?", "http://h", "https://u:p@h:1/x?y", "ws://[::1]:80/", "h:80", "*"];
    for text in texts {
        let theirs: http::Uri = text.parse().expect(text);
        let ours = uri(text);
        assert_eq!(ours.to_text(), theirs.to_string());
        assert_eq!(ours.path(), theirs.path());
        assert_eq!(ours.host(), theirs.host());
        assert_eq!(ours.copy().to_text(), theirs.to_string());
        let parts = theirs.into_parts();
        assert_eq!(ours.path_and_query.is_some(), parts.path_and_query.is_some());
        assert_eq!(ours.authority.is_some(), parts.authority.is_some());
    }
}

#[test]
fn server_of_a_request_changes() {
    let mut ctx = context("/a?b");
    assert!(ctx.update_req_scheme_host_and_port("http", "example.org:81").is_ok());
    assert_eq!(ctx.req.uri.to_text(), "http://example.org:81/a?b");
    assert_eq!(ctx.req.uri.host(), Some("example.org"));
    assert_eq!(ctx.req.headers.len(), 1);
}

#[test]
fn user_of_a_request_is_kept() {
    let mut ctx = context("http://me:x@old:1/a?b");
    assert!(ctx.update_req_scheme_host_and_port("https", "new:2").is_ok());
    assert_eq!(ctx.req.uri.to_text(), "https://me:x@new:2/a?b");
    assert_eq!(authority_for(&uri("http://a@b@c/"), "d"), "a@b@d");
    assert_eq!(authority_for(&uri("http://c/"), "d"), "d");
    assert_eq!(authority_for(&uri("/"), "d:1"), "d:1");
}

#[test]
fn plain_user_does_not_hide_the_server() {
    for (user, server, host, port) in [
        ("me", "h", "h", None),
        ("me:80", "h", "h", None),
        ("me:x", "h-1.org:080", "h-1.org", Some("080")),
        ("a%40b_~", "h:65535", "h", Some("65535")),
        ("", "h", "h", None),
    ] {
        let mut ctx = context(&format!("http://{}@old:1/a", user));
        assert!(ctx.update_req_scheme_host_and_port("http", server).is_ok());
        let a = ctx.req.uri.authority.as_ref().expect("authority");
        assert_eq!(a.text, format!("{}@{}", user, server));
        assert_eq!(a.host, host);
        assert_eq!(a.port.as_deref(), port);
    }
}

#[test]
fn server_of_a_request_can_be_wrong() {
    let long = "a".repeat(65);
    for (text, scheme, server, error) in [
        ("/", "ht tp", "h", "invalid scheme"),
        ("/", "http:", "h", "invalid scheme"),
        ("/", "é", "h", "invalid scheme"),
        ("/", long.as_str(), "h", "scheme too long"),
        ("/", "http", "a b", "invalid uri character"),
        ("/", "http", "a:1:2", "invalid authority"),
        ("/", "http", "", "empty string"),
        ("h:80", "http", "h", "path missing"),
    ] {
        let mut ctx = context(text);
        match ctx.update_req_scheme_host_and_port(scheme, server) {
            Ok(()) => panic!("{} {}", scheme, server),
            Err(e) => assert_eq!(e, error),
        }
        assert_eq!(ctx.req.uri.to_text(), text);
    }
    let mut ctx = context("/");
    assert!(ctx.update_req_scheme_host_and_port(&long[1..], "h").is_ok());
    assert!(ctx.update_req_scheme_host_and_port("a+b-c.d~E9", "h").is_ok());
}

#[test]
fn server_parts_are_put_into_a_uri() {
    let authority = || Authority {
        text: "h:1".to_owned(),
        host: "h".to_owned(),
        port: Some("1".to_owned()),
    };
    match uri_with_server(&uri("/a?b"), "ws".to_owned(), authority()) {
        Ok(u) => assert_eq!(u.to_text(), "ws://h:1/a?b"),
        Err(e) => panic!("{}", e),
    }
    match uri_with_server(&uri("h"), "ws".to_owned(), authority()) {
        Ok(_) => panic!("no path"),
        Err(e) => assert_eq!(e, "path missing"),
    }
}

#[test]
fn redirect_is_permanent() {
    let mut ctx = context("/a");
    let r = reply(ctx.exec(("redir", "https://example.org/é")));
    assert_eq!(r.status, 308);
    assert_eq!(r.headers.len(), 1);
    assert_eq!(r.headers["location"].as_bytes(), "https://example.org/é".as_bytes());
    assert!(matches!(r.body, ReplyBody::Empty));
    assert_eq!(ctx.req.uri.to_text(), "/a");
}

#[test]
fn prefix_is_stripped() {
    let mut ctx = context("/api/x?y=1");
    assert!(ctx.exec(("strip_prefix", "/api")).is_none());
    assert_eq!(ctx.req.uri.to_text(), "/x?y=1");
    assert_eq!(ctx.req.headers.len(), 1);
    assert!(ctx.exec(("strip_prefix", "/x")).is_none());
    assert_eq!(ctx.req.uri.to_text(), "/?y=1");
}

#[test]
fn other_prefix_changes_nothing() {
    let mut ctx = context("/api/x?y=1");
    assert!(ctx.exec(("strip_prefix", "/other")).is_none());
    assert_eq!(ctx.req.uri.to_text(), "/api/x?y=1");
}

#[test]
fn prefix_that_leaves_no_uri_changes_nothing() {
    let mut ctx = context("/a:1:2?q");
    assert!(ctx.exec(("strip_prefix", "/")).is_none());
    assert_eq!(ctx.req.uri.to_text(), "/a:1:2?q");
}

#[test]
fn relative_path_is_not_taken() {
    let mut ctx = context("/api/users/1?q");
    assert!(ctx.strip_prefix("/api/").is_none());
    assert_eq!(ctx.req.uri.to_text(), "/api/users/1?q");
    for param in ["users/1", "a#b", "?x", "#", "é/"] {
        assert!(Uri::parse(param).is_err());
        assert!(ctx.rewrite(param).is_none());
        assert_eq!(ctx.req.uri.to_text(), "/api/users/1?q");
    }
    let mut ctx = context("/api/users?q");
    assert!(ctx.strip_prefix("/api/").is_none());
    assert_eq!(ctx.req.uri.to_text(), "/api/users?q");
}

#[test]
fn prefix_may_leave_an_authority() {
    let mut ctx = context("/host");
    assert!(ctx.exec(("strip_prefix", "/")).is_none());
    assert_eq!(ctx.req.uri.to_text(), "host");
    assert_eq!(ctx.req.uri.host(), Some("host"));
    assert_eq!(ctx.req.uri.path(), "");
    assert!(ctx.exec(("rewrite", "/x")).is_none());
    assert_eq!(ctx.req.uri.to_text(), "host");
}

#[test]
fn path_is_rewritten() {
    let mut ctx = context("/a?b=c");
    assert!(ctx.exec(("rewrite", "/new/path")).is_none());
    assert_eq!(ctx.req.uri.path(), "/new/path");
    assert_eq!(ctx.req.uri.to_text(), "/new/path?b=c");
    assert!(ctx.exec(("rewrite", "")).is_none());
    assert_eq!(ctx.req.uri.to_text(), "/?b=c");
    assert!(ctx.exec(("rewrite", "/x?y")).is_none());
    assert_eq!(ctx.req.uri.path(), "/x");
    assert_eq!(ctx.req.uri.to_text(), "/x?y?b=c");
    assert!(ctx.exec(("rewrite", "/a b")).is_none());
    assert_eq!(ctx.req.uri.path(), "/x");
}

#[test]
fn path_is_rewritten_twice_as_once() {
    let mut with_fragment = context("/a?b");
    if let Some(p) = &mut with_fragment.req.uri.path_and_query {
        p.query = Some("b#c d".to_owned());
    }
    let contexts = [context("/a?b=c"), context("/a"), context("h"), with_fragment];
    for mut ctx in contexts {
        assert!(ctx.rewrite("/new/é").is_none());
        let once = ctx.req.uri.to_text();
        assert!(ctx.rewrite("/new/é").is_none());
        assert_eq!(ctx.req.uri.to_text(), once);
    }
    let mut ctx = context("/a?b=c");
    assert!(ctx.rewrite("/new/{x}").is_none());
    assert_eq!(ctx.req.uri.path(), "/new/{x}");
    assert_eq!(ctx.req.uri.to_text(), "/new/{x}?b=c");
}

#[test]
fn fragment_is_not_part_of_a_uri() {
    for text in ["/a?b#c", "/a#b?c", "http://h/a?b#c", "http://h#c", "http://h?b#c d"] {
        let u = uri(text);
        assert!(!u.to_text().contains('#'));
    }
    assert_eq!(uri("/a?b#c\u{1}").to_text(), uri("/a?b").to_text());
}

#[test]
fn path_is_modified_in_steps() {
    let mut ctx = context("/a?b");
    assert_eq!(ctx.target(Some("/n")).as_deref(), Some("/n?b"));
    assert_eq!(ctx.target(Some("")).as_deref(), Some("/?b"));
    assert_eq!(ctx.target(None), None);
    assert_eq!(context("h").target(Some("/n")), None);
    match ctx.modify_path(Some("/a b")) {
        Ok(()) => panic!("no uri"),
        Err(e) => assert_eq!(e, "invalid uri character"),
    }
    assert_eq!(ctx.set_uri(Err("wrong".to_owned())), Err("wrong".to_owned()));
    assert_eq!(ctx.req.uri.to_text(), "/a?b");
    assert_eq!(ctx.modify_path(None), Ok(()));
    assert_eq!(ctx.req.uri.to_text(), "/a?b");
    assert_eq!(ctx.set_uri(Ok(uri("/z"))), Ok(()));
    assert_eq!(ctx.req.uri.to_text(), "/z");
}

#[test]
fn time_to_keep_is_set() {
    let mut ctx = context("/a");
    assert!(ctx.exec(("cache", "60")).is_none());
    assert_eq!(ctx.cache, 60);
    assert_eq!(ctx.req.uri.to_text(), "/a");
    assert!(ctx.exec(("cache", "soon")).is_none());
    assert_eq!(ctx.cache, 0);
}

#[test]
fn machine_is_woken() {
    let mut ctx = context("/a");
    match ctx.exec(("wol", "01:02:03:0a:0B:ff")) {
        Some(Action::Wake { mac, bind, reply }) => {
            assert_eq!(mac, [1, 2, 3, 10, 11, 255]);
            assert_eq!(bind, None);
            assert_eq!(text_of(reply), (200, "ok".to_owned()));
        }
        _ => panic!("not woken"),
    }
    match ctx.exec(("wol", " 01-02-03-04-05-06\t10.0.0.1 ")) {
        Some(Action::Wake { mac, bind, .. }) => {
            assert_eq!(mac, [1, 2, 3, 4, 5, 6]);
            assert_eq!(bind.as_deref(), Some("10.0.0.1"));
        }
        _ => panic!("not woken"),
    }
    assert_eq!(ctx.req.uri.to_text(), "/a");
}

#[test]
fn machine_without_an_address_is_not_woken() {
    for param in ["", "  ", "a b c", "01:02:03:04:05", "nonsense text", "01:02:03:04:05:06:07:08"] {
        let r = reply(context("/a").exec(("wol", param)));
        assert_eq!(text_of(r), (200, "ok".to_owned()));
    }
}

#[test]
fn waking_in_steps() {
    assert_eq!(wake_args("m"), Some(("m".to_owned(), None)));
    assert_eq!(wake_args("m  b "), Some(("m".to_owned(), Some("b".to_owned()))));
    assert_eq!(wake_args(" "), None);
    assert_eq!(wake_args("m b c"), None);
    assert!(matches!(wake_action(None, None), Action::Reply(_)));
    assert!(matches!(
        wake_action(Some([6; 6]), Some("b".to_owned())),
        Action::Wake { mac: [6, 6, 6, 6, 6, 6], bind: Some(_), .. }
    ));
    assert_eq!(wake_from::<u8>([1; 6], None), Some(([1; 6], None)));
    assert_eq!(wake_from([1; 6], Some(Some(7))), Some(([1; 6], Some(7))));
    assert_eq!(wake_from::<u8>([1; 6], Some(None)), None);
}

#[test]
fn request_is_passed_on() {
    let mut ctx = context("/a?b");
    match ctx.exec(("reverse_proxy", "example.org:8080/ignored")) {
        Some(Action::Proxy(req)) => {
            assert_eq!(req.uri.to_text(), "http://example.org:8080/a?b");
            assert_eq!(req.headers["x-mark"], "1");
        }
        _ => panic!("not passed on"),
    }
    assert_eq!(ctx.req.uri.to_text(), "/");
    assert!(ctx.req.headers.is_empty());
}

#[test]
fn request_is_passed_on_and_kept() {
    let mut ctx = context("/a?b");
    ctx.cache = 30;
    match ctx.exec(("reverse_proxy", "https://user@example.org")) {
        Some(Action::ProxyCached { req, key, ttl }) => {
            assert_eq!(req.uri.to_text(), "https://example.org/a?b");
            assert_eq!(key, "rproxy:https://example.org/a?b");
            assert_eq!(ttl, 30);
        }
        _ => panic!("not passed on"),
    }
}

#[test]
fn web_socket_is_passed_on_and_not_kept() {
    let mut ctx = context("/a");
    ctx.ws = true;
    ctx.cache = 30;
    match ctx.exec(("reverse_proxy", "example.org")) {
        Some(Action::ProxyWebSocket(req)) => {
            assert_eq!(req.uri.to_text(), "ws://example.org/a");
        }
        _ => panic!("not passed on"),
    }
    assert!(!ctx.ws);
    assert_eq!(ctx.cache, 30);
}

#[test]
fn request_is_not_passed_on_without_a_url() {
    for (param, message) in [
        ("/x", "url error"),
        ("a@b@c", "url anthority error"),
        ("http://a@", "url host empty"),
    ] {
        let mut ctx = context("/a");
        let r = reply(ctx.exec(("reverse_proxy", param)));
        assert_eq!(text_of(r), (500, message.to_owned()));
        assert_eq!(ctx.req.uri.to_text(), "/a");
    }
}

#[test]
fn unknown_directive_is_told() {
    let r = reply(context("/a").exec(("foo", "bar")));
    assert_eq!(text_of(r), (500, "unknown directive: foo".to_owned()));
    let r = reply(context("/a").exec(("", "")));
    assert_eq!(text_of(r), (500, "unknown directive: ".to_owned()));
}

#[test]
fn faults_are_found() {
    let mut ctx = context("/a");
    assert!(matches!(ctx.fault(("redir", "a\nb")), Some(Fault::Location)));
    assert!(ctx.fault(("redir", "a\tb")).is_none());
    assert!(ctx.fault(("rewrite", "a\nb")).is_none());
    match ctx.try_exec(("reverse_proxy", "http://a b/")) {
        Err(Fault::Upstream(e)) => assert_eq!(e, "invalid uri character"),
        _ => panic!("no fault"),
    }
    assert!(matches!(ctx.try_exec(("redir", "\u{7f}")), Err(Fault::Location)));
    assert_eq!(ctx.req.uri.to_text(), "/a");
    assert!(matches!(ctx.try_exec(("cache", "5")), Ok(None)));
    assert_eq!(ctx.cache, 5);
}

#[test]
fn file_is_looked_for() {
    for (path, relative) in [("/a/b?c", "a/b"), ("/", ""), ("//x", "/x"), ("h", ""), ("*", "*")] {
        match context(path).exec(("file_server", "/srv")) {
            Some(Action::File { root, relative: found }) => {
                assert_eq!(root, "/srv");
                assert_eq!(found, relative);
            }
            _ => panic!("no file"),
        }
    }
}

#[test]
fn file_plan_depends_on_length_and_time() {
    let plan = |cache: u64, exists: bool, len: u64| {
        let mut ctx = context("/a");
        ctx.cache = cache;
        match ctx.plan_file("/srv", "/srv/a", exists, len) {
            FilePlan::Reply(r) => format!("{:?}", text_of(r)),
            FilePlan::Serve { root, req } => {
                assert!(ctx.req.headers.is_empty());
                format!("{} {}", root, req.uri.to_text())
            }
            FilePlan::Cached { key, ttl } => format!("{} {}", key, ttl),
        }
    };
    assert_eq!(plan(9, false, 1), "(404, \"not found\")");
    assert_eq!(plan(0, true, 1), "/srv /a");
    assert_eq!(plan(9, true, 0), "/srv /a");
    assert_eq!(plan(9, true, 262145), "/srv /a");
    assert_eq!(plan(9, true, 262144), "file:/srv/a 9");
    assert_eq!(plan(9, true, 1), "file:/srv/a 9");
}

#[test]
fn keys_of_servers_and_files_differ() {
    let mut ctx = context("/a");
    ctx.cache = 1;
    let file = match ctx.plan_file("/", "http://h/a", true, 1) {
        FilePlan::Cached { key, .. } => key,
        _ => panic!("not kept"),
    };
    let proxy = match ctx.exec(("reverse_proxy", "h")) {
        Some(Action::ProxyCached { key, .. }) => key,
        _ => panic!("not kept"),
    };
    assert_eq!(file, "file:http://h/a");
    assert_eq!(proxy, "rproxy:http://h/a");
}

#[test]
fn empty_request_is_for_the_root() {
    let req = Request::empty();
    assert_eq!(req.uri.to_text(), "/");
    assert!(req.headers.is_empty());
}
