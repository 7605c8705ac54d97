use http::HeaderMap;
use tinyweb::config::{Config, ConfigRoute};
use tinyweb::reply::{Reply, ReplyBody};
use tinyweb::request_context::{Action, Fault, Request, RequestContext};
use tinyweb::server::handler;
use tinyweb::uri::Uri;

fn route(matcher: &str, directives: &[&str]) -> ConfigRoute {
    ConfigRoute {
        matcher: matcher.to_owned(),
        directive: directives.iter().map(|d| (*d).to_owned()).collect(),
    }
}

fn config(routes: Vec<ConfigRoute>) -> Config {
    Config { routes, log: "info".to_owned(), bind: "127.0.0.1:8080".to_owned() }
}

fn context(path: &str) -> RequestContext {
    let uri = Uri::parse(path).ok().expect(path);
    RequestContext { ws: false, req: Request { uri, headers: HeaderMap::new() }, cache: 0 }
}

fn status_and_text(reply: &Reply) -> (u16, &str) {
    match &reply.body {
        ReplyBody::Text(t) => (reply.status, t.as_str()),
        _ => panic!("no text"),
    }
}

fn outcome(routes: Vec<ConfigRoute>, path: &str) -> String {
    let mut ctx = context(path);
    match handler(&config(routes), &mut ctx) {
        Ok(Action::Reply(r)) => match &r.body {
            ReplyBody::Empty => format!("{} {:?}", r.status, r.headers.get("location")),
            _ => format!("{:?}", status_and_text(&r)),
        },
        Ok(Action::Proxy(req)) => format!("proxy {}", req.uri.to_text()),
        Ok(Action::ProxyCached { key, ttl, .. }) => format!("{} {}", key, ttl),
        Ok(Action::File { root, relative }) => format!("{} {}", root, relative),
        Ok(_) => "other".to_owned(),
        Err(Fault::Location) => "location".to_owned(),
        Err(Fault::Upstream(e)) => format!("upstream {}", e),
    }
}

#[test]
fn no_route_is_not_found() {
    assert_eq!(outcome(vec![], "/"), "(404, \"not found\")");
    assert_eq!(
        outcome(vec![route("/a", &["redir /b"]), route("/c*", &["wol"])], "/x"),
        "(404, \"not found\")"
    );
}

#[test]
fn request_passes_routes_unchanged() {
    let mut ctx = context("/x?y");
    ctx.cache = 3;
    let routes = config(vec![route("/a", &["rewrite /z", "cache 9"])]);
    assert!(matches!(handler(&routes, &mut ctx), Ok(Action::Reply(_))));
    assert_eq!(ctx.req.uri.to_text(), "/x?y");
    assert_eq!(ctx.cache, 3);
}

#[test]
fn first_route_that_ends_wins() {
    let routes = vec![route("/*", &["redir /first"]), route("*", &["redir /second"])];
    assert_eq!(outcome(routes, "/x"), "308 Some(\"/first\")");
}

#[test]
fn directives_act_in_order() {
    let routes = vec![route(
        "/api/*",
        &["strip_prefix /api", "cache 60", "reverse_proxy http://127.0.0.1:3000"],
    )];
    assert_eq!(outcome(routes, "/api/x?y=1"), "rproxy:http://127.0.0.1:3000/x?y=1 60");
    let routes = vec![route("*", &["reverse_proxy h", "cache 60"])];
    assert_eq!(outcome(routes, "/x"), "proxy http://h/x");
}

#[test]
fn later_routes_see_the_new_path() {
    let routes = vec![
        route("/old", &["rewrite /new"]),
        route("/old", &["redir /never"]),
        route("/new", &["file_server /srv"]),
    ];
    assert_eq!(outcome(routes, "/old"), "/srv new");
}

#[test]
fn routes_one_behind_the_other() {
    let first = || route("/a", &["rewrite /b", "cache 5"]);
    let second = || route("/b", &["reverse_proxy h"]);
    assert_eq!(outcome(vec![first(), second()], "/a"), "rproxy:http://h/b 5");
    let mut ctx = context("/a");
    assert!(matches!(handler(&config(vec![first()]), &mut ctx), Ok(Action::Reply(_))));
    match handler(&config(vec![second()]), &mut ctx) {
        Ok(Action::ProxyCached { key, ttl, .. }) => {
            assert_eq!(key, "rproxy:http://h/b");
            assert_eq!(ttl, 5);
        }
        _ => panic!("not passed on"),
    }
}

#[test]
fn empty_directive_is_unknown() {
    assert_eq!(outcome(vec![route("*", &[""])], "/"), "(500, \"unknown directive: \")");
    assert_eq!(
        outcome(vec![route("*", &["cache", " stop now"])], "/"),
        "(500, \"unknown directive: stop\")"
    );
}

#[test]
fn faults_stop_a_request() {
    assert_eq!(outcome(vec![route("*", &["redir a\u{1}b"])], "/"), "location");
    assert_eq!(
        outcome(vec![route("*", &["reverse_proxy a:1:2"])], "/"),
        "upstream invalid authority"
    );
}
