use http::{HeaderMap, HeaderValue};
use tinyweb::cache::{
    fetch_from_cache, CacheEntry, CacheEvent, CacheStep, Fetched, MyExpiry, CACHE_CAPACITY,
    CACHE_LIMIT,
};
use tinyweb::files::{file_path, file_reply, local_file, requested_file, INDEX_FILE};
use tinyweb::reply::{Reply, ReplyBody};

fn marked() -> HeaderMap<HeaderValue> {
    let mut headers = HeaderMap::new();
    headers.insert("x-mark", HeaderValue::from_static("1"));
    headers
}

fn fetched(len: usize) -> CacheEvent {
    CacheEvent::Fetched(Fetched { status: 203, headers: marked(), body: vec![7; len] })
}

fn bytes(reply: &Reply) -> &[u8] {
    match &reply.body {
        ReplyBody::Bytes(b) => b,
        _ => panic!("no bytes"),
    }
}

#[test]
fn limits() {
    assert_eq!(CACHE_LIMIT, 256 * 1024);
    assert_eq!(CACHE_CAPACITY, 10000);
}

#[test]
fn missing_reply_is_fetched() {
    assert!(matches!(fetch_from_cache(1, CacheEvent::Missing), CacheStep::Fetch));
}

#[test]
fn small_reply_is_kept() {
    for len in [0, 1, CACHE_LIMIT] {
        match fetch_from_cache(60, fetched(len)) {
            CacheStep::Store(entry, reply) => {
                assert_eq!(entry.ttl, 60);
                assert_eq!(entry.status, 203);
                assert_eq!(entry.headers, marked());
                assert_eq!(entry.body, vec![7; len]);
                assert_eq!(reply.status, 203);
                assert_eq!(reply.headers, marked());
                assert_eq!(bytes(&reply), vec![7; len]);
            }
            _ => panic!("not kept"),
        }
    }
}

#[test]
fn large_reply_is_not_kept() {
    match fetch_from_cache(60, fetched(CACHE_LIMIT + 1)) {
        CacheStep::Reply(reply) => {
            assert_eq!(reply.status, 203);
            assert_eq!(bytes(&reply).len(), CACHE_LIMIT + 1);
        }
        _ => panic!("kept"),
    }
}

#[test]
fn failed_reply_is_told_and_not_kept() {
    match fetch_from_cache(60, CacheEvent::Failed("no route".to_owned())) {
        CacheStep::Reply(reply) => {
            assert_eq!(reply.status, 500);
            assert!(reply.headers.is_empty());
            assert!(matches!(reply.body, ReplyBody::Text(t) if t == "no route"));
        }
        _ => panic!("kept"),
    }
}

#[test]
fn kept_reply_is_repeated() {
    let (entry, first) = match fetch_from_cache(60, fetched(3)) {
        CacheStep::Store(entry, reply) => (entry, reply),
        _ => panic!("not kept"),
    };
    match fetch_from_cache(5, CacheEvent::Found(entry)) {
        CacheStep::Reply(again) => {
            assert_eq!(again.status, first.status);
            assert_eq!(again.headers, first.headers);
            assert_eq!(bytes(&again), bytes(&first));
        }
        _ => panic!("fetched again"),
    }
}

#[test]
fn entry_expires_after_its_time() {
    let entry = CacheEntry { ttl: 77, status: 200, headers: HeaderMap::new(), body: vec![] };
    assert_eq!(MyExpiry.expire_after_create(&entry), Some(77));
}

#[test]
fn file_of_a_known_type() {
    let reply = local_file("/srv/a.HTML", vec![1, 2, 3]);
    assert_eq!(reply.status, 200);
    assert_eq!(reply.headers.len(), 2);
    assert_eq!(reply.headers["content-type"], "text/html");
    assert_eq!(reply.headers["content-length"], "3");
    assert_eq!(bytes(&reply), [1, 2, 3]);
    assert_eq!(local_file("x.tar.png", vec![]).headers["content-type"], "image/png");
}

#[test]
fn file_of_an_unknown_type() {
    for path in ["/srv/a", "", "/srv/a.unknown-extension", ".hidden"] {
        let reply = local_file(path, vec![0; 10]);
        assert_eq!(reply.headers["content-type"], "application/octet-stream");
        assert_eq!(reply.headers["content-length"], "10");
    }
}

#[test]
fn file_with_colons_and_dots_in_its_name() {
    for path in ["/srv/10:30.html", "/srv/.d/a.html", "/srv/.a.html", "a.b/c.html"] {
        assert_eq!(local_file(path, vec![]).headers["content-type"], "text/html");
    }
    for path in ["/srv/a.d/b", "/srv.html/..", "/srv/a."] {
        assert_eq!(
            local_file(path, vec![]).headers["content-type"],
            "application/octet-stream"
        );
    }
}

#[test]
fn file_below_a_root() {
    let parts = |path: &str| path.replace('\\', "/");
    assert_eq!(parts(&file_path("/srv", "a/b.html")), "/srv/a/b.html");
    assert_eq!(parts(&file_path("/srv/", "a")), "/srv/a");
    assert_eq!(parts(&file_path("www", "")), "www/");
    assert_eq!(parts(&file_path(".", "é")), "./é");
    assert_eq!(parts(&file_path("", "a/b")), "a/b");
    assert_eq!(file_path("", ""), "");
    assert_eq!(parts(&file_path("/srv", "docs/a:b.txt")), "/srv/docs/a:b.txt");
    assert_eq!(parts(&file_path("/srv/x:y", "a")), "/srv/x:y/a");
}

#[test]
fn file_of_a_directory() {
    assert_eq!(INDEX_FILE, "index.html");
    assert_eq!(requested_file("/srv/a".to_owned(), false), "/srv/a");
    let path = requested_file("/srv/a".to_owned(), true);
    assert_eq!(path.replace('\\', "/"), "/srv/a/index.html");
    let path = requested_file("/srv/".to_owned(), true);
    assert_eq!(path.replace('\\', "/"), "/srv/index.html");
}

#[test]
fn file_of_a_given_type() {
    let reply = file_reply("text/x", vec![0; 262144]);
    assert_eq!(reply.status, 200);
    assert_eq!(reply.headers["content-type"], "text/x");
    assert_eq!(reply.headers["content-length"], "262144");
    assert_eq!(bytes(&reply).len(), 262144);
}

#[test]
fn replies_of_text() {
    let reply = Reply::not_found();
    assert_eq!(reply.status, 404);
    assert!(reply.headers.is_empty());
    assert!(matches!(reply.body, ReplyBody::Text(t) if t == "not found"));
    let reply = Reply::failure("x".to_owned());
    assert_eq!(reply.status, 500);
    let reply = Reply::redirect("/there");
    assert_eq!(reply.headers["location"], "/there");
}
