//! URLs of upstream servers: `scheme://authority@host/path`, with all but the host optional.

use vstd::prelude::*;
use vstd::string::StringExecFns;

use crate::text::{
    find, find_char, lemma_contains, lemma_find, lemma_find_unique, text_of, to_chars, to_text,
};

verus! {

/// The grammar of a URL. What follows the path, from `#` on, is ignored.
pub const URL_PATTERN: &'static str =
    r"^((?P<scheme>[^:]+)://)?(?P<host>[^/]+)(?P<path>[^#]*)";

/// A parsed URL.
#[derive(Clone)]
pub struct Url {
    pub scheme: Option<String>,
    pub authority: Option<String>,
    pub host: String,
    pub path: String,
}

/// What a `Url` holds.
pub struct UrlView {
    pub scheme: Option<Seq<char>>,
    pub authority: Option<Seq<char>>,
    pub host: Seq<char>,
    pub path: Seq<char>,
}

/// Why a text is not a URL.
#[derive(Clone, Copy, Debug, PartialEq, Eq, Structural)]
pub enum UrlError {
    /// The text does not match the grammar.
    NoMatch,
    /// More than one `@` stands before the path.
    Authority,
    /// Nothing stands between `@` and the path.
    HostEmpty,
}

/// The groups of one match of `URL_PATTERN`.
pub struct UrlGroups {
    pub scheme: Option<String>,
    pub host: Option<String>,
    pub path: Option<String>,
}

impl View for Url {
    type V = UrlView;

    open spec fn view(&self) -> UrlView {
        UrlView {
            scheme: text_of(self.scheme),
            authority: text_of(self.authority),
            host: self.host@,
            path: self.path@,
        }
    }
}

/// Whether `s` starts with a scheme: something before the first `:`, then `://`, then the first
/// character of a host.
pub open spec fn has_scheme(s: Seq<char>) -> bool {
    let k = find(s, ':') as int;
    0 < k && k + 3 < s.len() && s[k + 1] == '/' && s[k + 2] == '/' && s[k + 3] != '/'
}

/// Where the host group of `s` starts.
pub open spec fn host_start(s: Seq<char>) -> int {
    if has_scheme(s) {
        find(s, ':') as int + 3
    } else {
        0
    }
}

/// Where the host group of `s` ends: before the next `/`.
pub open spec fn host_end(s: Seq<char>) -> int {
    host_start(s) + find(s.skip(host_start(s)), '/')
}

/// Where the path group of `s` ends: before the next `#`.
pub open spec fn path_end(s: Seq<char>) -> int {
    host_end(s) + find(s.skip(host_end(s)), '#')
}

/// The scheme, host and path groups of `s`, or `None` if `s` has no host.
pub open spec fn url_groups(s: Seq<char>) -> Option<(Option<Seq<char>>, Seq<char>, Seq<char>)> {
    if host_start(s) < host_end(s) {
        Some(
            (
                if has_scheme(s) {
                    Some(s.take(find(s, ':') as int))
                } else {
                    None
                },
                s.subrange(host_start(s), host_end(s)),
                s.subrange(host_end(s), path_end(s)),
            ),
        )
    } else {
        None
    }
}

/// What `s` is as a URL.
pub open spec fn parse_url(s: Seq<char>) -> Result<UrlView, UrlError> {
    match url_groups(s) {
        None => Err(UrlError::NoMatch),
        Some((scheme, group, path)) => {
            let at = find(group, '@') as int;
            if at == group.len() {
                Ok(UrlView { scheme, authority: None, host: group, path })
            } else if group.skip(at + 1).contains('@') {
                Err(UrlError::Authority)
            } else if at + 1 == group.len() {
                Err(UrlError::HostEmpty)
            } else {
                Ok(
                    UrlView {
                        scheme,
                        authority: Some(group.take(at)),
                        host: group.skip(at + 1),
                        path,
                    },
                )
            }
        },
    }
}

/// The text of a URL up to its path.
pub open spec fn url_prefix(u: UrlView) -> Seq<char> {
    let scheme = match u.scheme {
        Some(s) => s + "://"@,
        None => Seq::empty(),
    };
    let authority = match u.authority {
        Some(a) => a.push('@'),
        None => Seq::empty(),
    };
    scheme + authority + u.host
}

/// The text of a URL.
pub open spec fn url_text(u: UrlView) -> Seq<char> {
    url_prefix(u) + u.path
}

/// What holds of every parsed URL: no part holds the character that ends it, only the path may
/// be empty besides the authority, and a URL without a scheme does not read as one with a scheme.
pub open spec fn url_wf(u: UrlView) -> bool {
    &&& u.scheme matches Some(s) ==> s.len() > 0 && !s.contains(':')
    &&& u.scheme is None ==> !has_scheme(url_text(u))
    &&& u.authority matches Some(a) ==> !a.contains('/') && !a.contains('@')
    &&& u.host.len() > 0 && !u.host.contains('/') && !u.host.contains('@')
    &&& u.path.len() > 0 ==> u.path[0] == '/'
    &&& !u.path.contains('#')
}

/// `Regex::captures` on `URL_PATTERN`. The match is anchored at the start of the text, groups
/// are greedy, and the first alternative that leads to a match is taken. So the scheme group,
/// which cannot hold a `:`, takes part exactly when the first `:` ends it, `//` follows and a
/// host of at least one character is left; the host group runs up to the next `/` or the end,
/// and the path group from there up to the next `#` or the end.
#[verifier::external_body]
fn captures(pattern: &str, text: &str) -> (r: Option<UrlGroups>)
    requires
        pattern@ == URL_PATTERN@,
    ensures
        r is Some <==> url_groups(text@) is Some,
        r matches Some(m) ==> m.host is Some && m.path is Some && url_groups(text@) == Some(
            (text_of(m.scheme), m.host->0@, m.path->0@),
        ),
{
    let pattern = regex::Regex::new(pattern).unwrap();
    let m = pattern.captures(text)?;
    Some(UrlGroups {
        scheme: m.name("scheme").map(|x| x.as_str().to_owned()),
        host: m.name("host").map(|x| x.as_str().to_owned()),
        path: m.name("path").map(|x| x.as_str().to_owned()),
    })
}

/// The groups of a match follow one another, and none holds the character that ends it.
proof fn lemma_url_groups(s: Seq<char>)
    ensures
        url_groups(s) matches Some((scheme, group, path)) ==> {
            &&& 0 <= host_start(s) < host_end(s) <= path_end(s) <= s.len()
            &&& path_end(s) < s.len() ==> s[path_end(s)] == '#'
            &&& group.len() > 0 && !group.contains('/')
            &&& path.len() > 0 ==> path[0] == '/'
            &&& !path.contains('#')
            &&& scheme matches Some(c) ==> c.len() > 0 && !c.contains(':')
        },
{
    lemma_find(s, ':');
    if url_groups(s) is Some {
        let (hs, he, pe) = (host_start(s), host_end(s), path_end(s));
        let after_scheme = s.skip(hs);
        lemma_find(after_scheme, '/');
        let after_host = s.skip(he);
        lemma_find(after_host, '#');
        assert forall|j: int| hs <= j < he implies s[j] != '/' by {
            assert(after_scheme[j - hs] == s[j]);
        }
        assert forall|j: int| he <= j < pe implies s[j] != '#' by {
            assert(after_host[j - he] == s[j]);
        }
        if he < s.len() {
            assert(after_scheme[he - hs] == s[he]);
        }
        if pe < s.len() {
            assert(after_host[pe - he] == s[pe]);
        }
    }
}

/// A prefix that starts with a scheme makes the whole text start with that scheme.
proof fn lemma_has_scheme_of_prefix(s: Seq<char>, n: int)
    requires
        0 <= n <= s.len(),
        has_scheme(s.take(n)),
    ensures
        has_scheme(s),
{
    let t = s.take(n);
    lemma_find(t, ':');
    assert forall|j: int| 0 <= j < find(t, ':') implies s[j] != ':' by {
        assert(t[j] == s[j]);
    }
    lemma_find_unique(s, ':', find(t, ':'));
}

/// The text of a parsed URL is what was parsed, up to a `#` behind the host or up to the end.
pub proof fn law_text_of_parsed_url(s: Seq<char>)
    ensures
        parse_url(s) matches Ok(u) ==> {
            &&& 0 <= path_end(s) <= s.len()
            &&& url_text(u) == s.take(path_end(s))
            &&& path_end(s) < s.len() ==> s[path_end(s)] == '#'
        },
{
    if let Ok(u) = parse_url(s) {
        lemma_url_groups(s);
        lemma_find(s, ':');
        reveal_strlit("://");
        let group = s.subrange(host_start(s), host_end(s));
        lemma_find(group, '@');
        if let Some(a) = u.authority {
            assert(a.push('@') + u.host == group);
        } else {
            assert(Seq::<char>::empty() + u.host == group);
        }
        let scheme = match u.scheme {
            Some(c) => c + "://"@,
            None => Seq::empty(),
        };
        assert(scheme == s.take(host_start(s)));
        assert(url_prefix(u) == scheme + group);
        assert(url_text(u) == s.take(path_end(s)));
    }
}

proof fn lemma_parsed_url_is_wf(s: Seq<char>)
    ensures
        parse_url(s) matches Ok(u) ==> url_wf(u),
{
    if let Ok(u) = parse_url(s) {
        lemma_url_groups(s);
        law_text_of_parsed_url(s);
        if u.scheme is None && has_scheme(url_text(u)) {
            lemma_has_scheme_of_prefix(s, path_end(s));
        }
        let group = s.subrange(host_start(s), host_end(s));
        lemma_find(group, '@');
        lemma_contains(group, '@');
        if let Some(a) = u.authority {
            assert forall|j: int| 0 <= j < a.len() implies a[j] != '/' && a[j] != '@' by {
                assert(group.contains(group[j]));
            }
            assert forall|j: int| 0 <= j < u.host.len() implies u.host[j] != '/' by {
                assert(u.host[j] == group[a.len() + 1 + j]);
                assert(group.contains(u.host[j]));
            }
        }
    }
}

/// Parsing the text of a well-formed URL, so of every parsed one, gives that URL back.
pub proof fn law_parse_of_url_text(u: UrlView)
    requires
        url_wf(u),
    ensures
        parse_url(url_text(u)) == Ok::<UrlView, UrlError>(u),
{
    reveal_strlit("://");
    let t = url_text(u);
    let scheme = match u.scheme {
        Some(c) => c + "://"@,
        None => Seq::empty(),
    };
    let authority = match u.authority {
        Some(a) => a.push('@'),
        None => Seq::empty(),
    };
    let group = authority + u.host;
    let hs = scheme.len() as int;
    let he = hs + group.len();
    assert(t == scheme + group + u.path);
    assert forall|j: int| 0 <= j < group.len() implies group[j] != '/' by {
        if j < authority.len() {
            let a = u.authority->0;
            if j < a.len() {
                assert(a.contains(a[j]));
            }
        } else {
            assert(u.host.contains(u.host[j - authority.len()]));
        }
    }
    if let Some(c) = u.scheme {
        let k = c.len() as int;
        assert forall|j: int| 0 <= j < k implies t[j] != ':' by {
            assert(t[j] == c[j]);
            assert(c.contains(c[j]));
        }
        assert(t[k] == scheme[k]);
        lemma_find_unique(t, ':', c.len());
        assert(t[k + 1] == scheme[k + 1]);
        assert(t[k + 2] == scheme[k + 2]);
        assert(t[k + 3] == group[0]);
        assert(t.take(k) == c);
    }
    assert(host_start(t) == hs);
    let after_scheme = t.skip(hs);
    assert(after_scheme == group + u.path);
    lemma_find_unique(after_scheme, '/', group.len());
    assert(host_end(t) == he);
    assert(t.skip(he) == u.path);
    assert forall|j: int| 0 <= j < u.path.len() implies u.path[j] != '#' by {
        assert(u.path.contains(u.path[j]));
    }
    lemma_find_unique(u.path, '#', u.path.len());
    assert(t.subrange(hs, he) == group);
    assert(t.subrange(he, path_end(t)) == u.path);
    if let Some(a) = u.authority {
        assert forall|j: int| 0 <= j < a.len() implies group[j] != '@' by {
            assert(a.contains(a[j]));
        }
        lemma_find_unique(group, '@', a.len());
        assert(group.take(a.len() as int) == a);
        assert(group.skip(a.len() as int + 1) == u.host);
    } else {
        assert(group == u.host);
        assert forall|j: int| 0 <= j < group.len() implies group[j] != '@' by {
            assert(u.host.contains(u.host[j]));
        }
        lemma_find_unique(group, '@', group.len());
    }
}

impl UrlError {
    /// What the error says.
    pub open spec fn spec_message(self) -> Seq<char> {
        match self {
            UrlError::NoMatch => "url error"@,
            UrlError::Authority => "url anthority error"@,
            UrlError::HostEmpty => "url host empty"@,
        }
    }

    /// What the error says.
    pub fn message(&self) -> (r: String)
        ensures
            r@ == self.spec_message(),
    {
        match self {
            UrlError::NoMatch => "url error".to_owned(),
            UrlError::Authority => "url anthority error".to_owned(),
            UrlError::HostEmpty => "url host empty".to_owned(),
        }
    }
}

impl Url {
    /// Parses a URL.
    pub fn parse(url: &str) -> (r: Result<Url, UrlError>)
        ensures
            r is Ok <==> parse_url(url@) is Ok,
            r matches Ok(u) ==> parse_url(url@) == Ok::<UrlView, UrlError>(u@) && url_wf(u@),
            r matches Err(e) ==> parse_url(url@) == Err::<UrlView, UrlError>(e),
    {
        let m = match captures(URL_PATTERN, url) {
            Some(m) => m,
            None => return Err(UrlError::NoMatch),
        };
        proof {
            lemma_url_groups(url@);
            lemma_parsed_url_is_wf(url@);
        }
        let group = match m.host {
            Some(host) => host,
            None => return Err(UrlError::HostEmpty),
        };
        let path = match m.path {
            Some(path) => path,
            None => String::new(),
        };
        let chars = to_chars(group.as_str());
        assert(chars@.skip(0) == chars@);
        let at = find_char(&chars, 0, '@');
        if at == chars.len() {
            return Ok(Url { scheme: m.scheme, authority: None, host: group, path });
        }
        let next = find_char(&chars, at + 1, '@');
        proof {
            lemma_contains(chars@.skip(at + 1), '@');
        }
        if next < chars.len() {
            return Err(UrlError::Authority);
        }
        let authority = to_text(&chars, 0, at);
        let host = to_text(&chars, at + 1, chars.len());
        assert(authority@ == chars@.take(at as int));
        assert(host@ == chars@.skip(at + 1));
        if at + 1 == chars.len() {
            return Err(UrlError::HostEmpty);
        }
        Ok(Url { scheme: m.scheme, authority: Some(authority), host, path })
    }

    /// The text of the URL up to its path.
    pub fn to_str_without_path(&self) -> (r: String)
        ensures
            r@ == url_prefix(self@),
    {
        let mut result = String::new();
        if let Some(scheme) = &self.scheme {
            result.append(scheme.as_str());
            result.append("://");
        }
        if let Some(authority) = &self.authority {
            result.append(authority.as_str());
            result.push('@');
        }
        result.append(self.host.as_str());
        result
    }

    /// The text of the URL.
    pub fn to_str(&self) -> (r: String)
        ensures
            r@ == url_text(self@),
    {
        let mut result = self.to_str_without_path();
        result.append(self.path.as_str());
        result
    }
}

/// Whether a text can be read as a scheme, `://` and something that can start a host.
pub open spec fn names_scheme(text: Seq<char>) -> bool {
    exists|scheme: Seq<char>, rest: Seq<char>|
        {
            &&& text == #[trigger] (scheme + "://"@ + rest)
            &&& scheme.len() > 0 && !scheme.contains(':')
            &&& rest.len() > 0 && rest[0] != '/'
        }
}

proof fn lemma_names_scheme(text: Seq<char>)
    requires
        has_scheme(text),
    ensures
        names_scheme(text),
{
    reveal_strlit("://");
    lemma_find(text, ':');
    let k = find(text, ':') as int;
    let scheme = text.take(k);
    let rest = text.skip(k + 3);
    assert(text == scheme + "://"@ + rest);
}

/// The parts of a URL, put together.
pub open spec fn url_of_parts(
    scheme: Option<Seq<char>>,
    group: Seq<char>,
    path: Seq<char>,
    fragment: Seq<char>,
) -> Seq<char> {
    match scheme {
        Some(s) => s + "://"@ + group + path + fragment,
        None => group + path + fragment,
    }
}

/// Whether these can be told apart when they are put together: none holds what ends it.
pub open spec fn are_url_parts(
    scheme: Option<Seq<char>>,
    group: Seq<char>,
    path: Seq<char>,
    fragment: Seq<char>,
) -> bool {
    &&& scheme matches Some(s) ==> s.len() > 0 && !s.contains(':')
    &&& scheme is None ==> !names_scheme(group + path + fragment)
    &&& group.len() > 0 && !group.contains('/')
    &&& path.len() > 0 ==> path[0] == '/'
    &&& !path.contains('#')
    &&& fragment.len() > 0 ==> fragment[0] == '#' && path.len() > 0
}

proof fn lemma_groups_of_parts(
    scheme: Option<Seq<char>>,
    group: Seq<char>,
    path: Seq<char>,
    fragment: Seq<char>,
)
    requires
        are_url_parts(scheme, group, path, fragment),
    ensures
        url_groups(url_of_parts(scheme, group, path, fragment)) == Some((scheme, group, path)),
{
    reveal_strlit("://");
    let t = url_of_parts(scheme, group, path, fragment);
    let head = match scheme {
        Some(c) => c + "://"@,
        None => Seq::empty(),
    };
    assert(t == head + group + path + fragment);
    let hs = head.len() as int;
    let he = hs + group.len();
    assert forall|j: int| 0 <= j < group.len() implies group[j] != '/' by {
        assert(group.contains(group[j]));
    }
    if let Some(c) = scheme {
        let k = c.len() as int;
        assert forall|j: int| 0 <= j < k implies t[j] != ':' by {
            assert(t[j] == c[j]);
            assert(c.contains(c[j]));
        }
        assert(t[k] == head[k]);
        lemma_find_unique(t, ':', c.len());
        assert(t[k + 1] == head[k + 1]);
        assert(t[k + 2] == head[k + 2]);
        assert(t[k + 3] == group[0]);
        assert(t.take(k) == c);
    } else if has_scheme(t) {
        lemma_names_scheme(t);
    }
    assert(host_start(t) == hs);
    let after_scheme = t.skip(hs);
    assert(after_scheme == group + path + fragment);
    lemma_find_unique(after_scheme, '/', group.len());
    assert(host_end(t) == he);
    let after_host = t.skip(he);
    assert(after_host == path + fragment);
    assert forall|j: int| 0 <= j < path.len() implies after_host[j] != '#' by {
        assert(path.contains(path[j]));
    }
    lemma_find_unique(after_host, '#', path.len());
    assert(t.subrange(hs, he) == group);
    assert(t.subrange(he, path_end(t)) == path);
}

/// A URL without a user is read as its scheme, if it names one, its whole host and its path. What
/// follows the path from `#` on is ignored.
pub proof fn law_url_without_user(
    scheme: Option<Seq<char>>,
    host: Seq<char>,
    path: Seq<char>,
    fragment: Seq<char>,
)
    requires
        are_url_parts(scheme, host, path, fragment),
        !host.contains('@'),
    ensures
        parse_url(url_of_parts(scheme, host, path, fragment)) == Ok::<UrlView, UrlError>(
            UrlView { scheme, authority: None, host, path },
        ),
{
    lemma_groups_of_parts(scheme, host, path, fragment);
    lemma_contains(host, '@');
    lemma_find(host, '@');
}

/// A URL with a user is read as its scheme, if it names one, the user, the host behind it and its
/// path, unless that host is empty or holds another `@`.
pub proof fn law_url_with_user(
    scheme: Option<Seq<char>>,
    user: Seq<char>,
    host: Seq<char>,
    path: Seq<char>,
    fragment: Seq<char>,
)
    requires
        are_url_parts(scheme, user + seq!['@'] + host, path, fragment),
        !user.contains('@'),
    ensures
        parse_url(url_of_parts(scheme, user + seq!['@'] + host, path, fragment)) == (
        if host.contains('@') {
            Err::<UrlView, UrlError>(UrlError::Authority)
        } else if host.len() == 0 {
            Err(UrlError::HostEmpty)
        } else {
            Ok(UrlView { scheme, authority: Some(user), host, path })
        }),
{
    let group = user + seq!['@'] + host;
    lemma_groups_of_parts(scheme, group, path, fragment);
    assert forall|j: int| 0 <= j < user.len() implies group[j] != '@' by {
        assert(user.contains(user[j]));
    }
    lemma_find_unique(group, '@', user.len());
    assert(group.take(user.len() as int) == user);
    assert(group.skip(user.len() as int + 1) == host);
}

/// What names no scheme and is empty or starts with `/` is no URL.
pub proof fn law_no_url_without_host(text: Seq<char>)
    requires
        text.len() == 0 || text[0] == '/',
        !names_scheme(text),
    ensures
        parse_url(text) == Err::<UrlView, UrlError>(UrlError::NoMatch),
{
    if has_scheme(text) {
        lemma_names_scheme(text);
    }
    assert(text.skip(0) == text);
}

/// The text of a URL is its scheme and `://`, its user and `@`, its host and its path, each if it
/// has one.
pub proof fn law_url_text(u: UrlView)
    ensures
        u.scheme is None && u.authority is None ==> url_prefix(u) == u.host,
        u.scheme matches Some(s) ==> u.authority is None ==> url_prefix(u) == s + "://"@ + u.host,
        u.authority matches Some(a) ==> u.scheme is None ==> url_prefix(u) == a + seq!['@']
            + u.host,
        u.scheme matches Some(s) ==> u.authority matches Some(a) ==> url_prefix(u) == s + "://"@
            + a + seq!['@'] + u.host,
        url_text(u) == url_prefix(u) + u.path,
{
    if let Some(a) = u.authority {
        assert(a.push('@') == a + seq!['@']);
        if let Some(s) = u.scheme {
            assert(s + "://"@ + (a + seq!['@']) == s + "://"@ + a + seq!['@']);
        } else {
            assert(Seq::<char>::empty() + (a + seq!['@']) == a + seq!['@']);
        }
    } else {
        if let Some(s) = u.scheme {
            assert(s + "://"@ + Seq::<char>::empty() == s + "://"@);
        } else {
            assert(Seq::<char>::empty() + Seq::<char>::empty() + u.host == u.host);
        }
    }
}

/// What each error says.
pub proof fn law_url_messages()
    ensures
        UrlError::NoMatch.spec_message() == "url error"@,
        UrlError::Authority.spec_message() == "url anthority error"@,
        UrlError::HostEmpty.spec_message() == "url host empty"@,
{
}

} // verus!
