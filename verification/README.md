# tinyweb

A small web server that is configured by `tinyweb.yaml`: a list of routes, each with a matcher for
request paths and a list of directives.

```yaml
bind: 127.0.0.1:8080
log: info
routes:
  - matcher: /api/*
    directive:
      - strip_prefix /api
      - cache 60
      - reverse_proxy http://127.0.0.1:3000
  - matcher: "*"
    directive:
      - file_server /srv/www
```

A matcher is a list of paths with spaces between them. A path that ends in `*` stands for every
path that starts with the rest of it. A request goes through the routes in their order, and
through the directives of each route that matches, until one of these ends its way:

| directive | effect |
| --- | --- |
| `redir <location>` | redirects the client for good |
| `strip_prefix <prefix>` | takes a prefix off the path |
| `rewrite <path>` | replaces the path |
| `cache <seconds>` | has the reply kept |
| `reverse_proxy <url>` | passes the request, or the web socket, on to another server |
| `file_server <directory>` | answers with a file |
| `wol <mac> [<address>]` | wakes a machine |

## Layout

- `src/` is the library: what the server decides, with contracts that Verus proves.
  - `config`, `server`: matchers, directives, and the way of a request through them
  - `request_context`: what each directive does
  - `url`, `uri`, `headers`, `text`, `decimal`: what requests and directives are made of
  - `proxy`: headers and web socket messages that are passed on
  - `cache`, `files`, `reply`: replies, which of them are kept, and those that come from files
- `app/` is the program: sockets, files, the kept replies, and the outside calls that the library
  asks for.
- `tests/` holds the tests of the library.
