//! Request URIs by their parts, as the `http` crate reads them.

use std::str::FromStr;

use vstd::prelude::*;
use vstd::string::StringExecFns;
use vstd::utf8::encode_utf8;

use crate::decimal::{all_digits, value};
use crate::text::{find, find_last, text_of};

verus! {

/// The authority of a URI: its text, and the host and the port in it.
pub struct Authority {
    pub text: String,
    pub host: String,
    pub port: Option<String>,
}

/// The path and the query of a URI. The text is as it was written; an empty path reads as `/`.
pub struct PathAndQuery {
    pub text: String,
    pub path: String,
    pub query: Option<String>,
}

/// A URI.
pub struct Uri {
    pub scheme: Option<String>,
    pub authority: Option<Authority>,
    pub path_and_query: Option<PathAndQuery>,
}

/// What an `Authority` holds.
pub struct AuthorityView {
    pub text: Seq<char>,
    pub host: Seq<char>,
    pub port: Option<Seq<char>>,
}

/// What a `PathAndQuery` holds.
pub struct PathAndQueryView {
    pub text: Seq<char>,
    pub path: Seq<char>,
    pub query: Option<Seq<char>>,
}

/// What a `Uri` holds.
pub struct UriView {
    pub scheme: Option<Seq<char>>,
    pub authority: Option<AuthorityView>,
    pub path_and_query: Option<PathAndQueryView>,
}

impl View for Authority {
    type V = AuthorityView;

    open spec fn view(&self) -> AuthorityView {
        AuthorityView { text: self.text@, host: self.host@, port: text_of(self.port) }
    }
}

impl View for PathAndQuery {
    type V = PathAndQueryView;

    open spec fn view(&self) -> PathAndQueryView {
        PathAndQueryView { text: self.text@, path: self.path@, query: text_of(self.query) }
    }
}

impl View for Uri {
    type V = UriView;

    open spec fn view(&self) -> UriView {
        UriView {
            scheme: text_of(self.scheme),
            authority: match self.authority {
                Some(a) => Some(a@),
                None => None,
            },
            path_and_query: match self.path_and_query {
                Some(p) => Some(p@),
                None => None,
            },
        }
    }
}

/// The three forms of a URI: with a scheme, an authority and a path; a path alone; an authority
/// alone. No part of a path or a query is a fragment.
pub open spec fn uri_wf(u: UriView) -> bool {
    &&& !path_of(u).contains('#')
    &&& u.path_and_query matches Some(p) ==> p.query matches Some(q) ==> !q.contains('#')
    &&& u.scheme is Some ==> u.authority is Some && u.path_and_query is Some
    &&& u.scheme is None ==> (u.authority is Some <==> u.path_and_query is None)
}

/// The path of a URI, which is empty where it has none.
pub open spec fn path_of(u: UriView) -> Seq<char> {
    match u.path_and_query {
        Some(p) => p.path,
        None => Seq::empty(),
    }
}

/// The host of a URI.
pub open spec fn host_of(u: UriView) -> Option<Seq<char>> {
    match u.authority {
        Some(a) => Some(a.host),
        None => None,
    }
}

/// The text of a URI: the scheme with `://`, the authority, the path, and the query behind `?`.
pub open spec fn uri_text(u: UriView) -> Seq<char> {
    let scheme = match u.scheme {
        Some(s) => s + "://"@,
        None => Seq::empty(),
    };
    let authority = match u.authority {
        Some(a) => a.text,
        None => Seq::empty(),
    };
    let query = match u.path_and_query {
        Some(p) => match p.query {
            Some(q) => seq!['?'] + q,
            None => Seq::empty(),
        },
        None => Seq::empty(),
    };
    scheme + authority + path_of(u) + query
}

/// The URI `/`.
pub open spec fn root_uri() -> UriView {
    UriView {
        scheme: None,
        authority: None,
        path_and_query: Some(PathAndQueryView { text: seq!['/'], path: seq!['/'], query: None }),
    }
}

/// The path and the query of a text that starts with `/`: all before `#`, with the query behind
/// the first `?`.
pub open spec fn split_path_and_query(s: Seq<char>) -> PathAndQueryView {
    let text = s.take(find(s, '#') as int);
    let i = find(text, '?') as int;
    PathAndQueryView {
        text,
        path: text.take(i),
        query: if i < text.len() {
            Some(text.skip(i + 1))
        } else {
            None
        },
    }
}

/// An ASCII letter or digit.
pub open spec fn is_alphanumeric(c: char) -> bool {
    'a' <= c <= 'z' || 'A' <= c <= 'Z' || '0' <= c <= '9'
}

/// A path, with or without a query, of characters that need no encoding there.
pub open spec fn is_plain_path(s: Seq<char>) -> bool {
    &&& 0 < s.len() <= 65534
    &&& s[0] == '/'
    &&& forall|i: int|
        0 <= i < s.len() ==> {
            ||| is_alphanumeric(#[trigger] s[i])
            ||| s[i] == '/' || s[i] == '-' || s[i] == '.' || s[i] == '_' || s[i] == '~'
            ||| s[i] == '%' || s[i] == '+' || s[i] == '&' || s[i] == '=' || s[i] == '?'
        }
}

/// A host name of letters, digits, hyphens and dots.
pub open spec fn is_plain_host(s: Seq<char>) -> bool {
    &&& s.len() > 0
    &&& forall|i: int|
        0 <= i < s.len() ==> is_alphanumeric(#[trigger] s[i]) || s[i] == '-' || s[i] == '.'
}

/// Such a host name, with or without `:` and a port number behind it.
pub open spec fn is_plain_server(s: Seq<char>) -> bool {
    let i = find(s, ':') as int;
    &&& is_plain_host(s.take(i))
    &&& i < s.len() ==> i + 1 < s.len() && all_digits(s.skip(i + 1)) && value(s.skip(i + 1))
        <= 65535
}

/// A user of letters, digits and `- . _ ~ %`, with at most one `:`.
pub open spec fn is_plain_user(s: Seq<char>) -> bool {
    &&& forall|i: int|
        0 <= i < s.len() ==> {
            ||| is_alphanumeric(#[trigger] s[i])
            ||| s[i] == '-' || s[i] == '.' || s[i] == '_' || s[i] == '~' || s[i] == '%'
            ||| s[i] == ':'
        }
    &&& forall|i: int, j: int|
        0 <= i < j < s.len() ==> !(#[trigger] s[i] == ':' && #[trigger] s[j] == ':')
}

/// The part of an authority behind the user.
pub open spec fn server_of(s: Seq<char>) -> Seq<char> {
    match find_last(s, '@') {
        Some(i) => s.skip(i as int + 1),
        None => s,
    }
}

/// Such a server, with or without such a user and `@` before it.
pub open spec fn is_plain_authority(s: Seq<char>) -> bool {
    &&& is_plain_server(server_of(s))
    &&& find_last(s, '@') matches Some(i) ==> is_plain_user(s.take(i as int))
}

/// The host and the port of such an authority.
pub open spec fn split_authority(s: Seq<char>) -> AuthorityView {
    let server = server_of(s);
    let i = find(server, ':') as int;
    AuthorityView {
        text: s,
        host: server.take(i),
        port: if i < server.len() {
            Some(server.skip(i + 1))
        } else {
            None
        },
    }
}

/// Whether `s` has a path, a query or a fragment, but neither starts with `/` nor has a scheme.
pub open spec fn is_relative(s: Seq<char>) -> bool {
    &&& s.len() > 0 && s[0] != '/'
    &&& !s.contains(':')
    &&& s.contains('/') || s.contains('?') || s.contains('#')
}

/// A character of a scheme.
pub open spec fn is_scheme_char(c: char) -> bool {
    is_alphanumeric(c) || c == '+' || c == '-' || c == '.' || c == '~'
}

/// What is wrong with `s` as a scheme, if anything is.
pub open spec fn scheme_error(s: Seq<char>) -> Option<Seq<char>> {
    if encode_utf8(s).len() > 64 {
        Some("scheme too long"@)
    } else if exists|i: int| 0 <= i < s.len() && !is_scheme_char(#[trigger] s[i]) {
        Some("invalid scheme"@)
    } else {
        None
    }
}

/// What `http::Uri::from_str` makes of a text: a URI, or the text of its error.
pub uninterp spec fn uri_parse(s: Seq<char>) -> Result<UriView, Seq<char>>;

/// What `http::uri::Authority::from_str` makes of a text: an authority, or the text of its error.
pub uninterp spec fn authority_parse(s: Seq<char>) -> Result<AuthorityView, Seq<char>>;

/// What the reading of a URI came to.
pub open spec fn uri_outcome(r: Result<Uri, String>) -> Result<UriView, Seq<char>> {
    match r {
        Ok(u) => Ok(u@),
        Err(e) => Err(e@),
    }
}

/// What the reading of an authority came to.
pub open spec fn authority_outcome(r: Result<Authority, String>) -> Result<
    AuthorityView,
    Seq<char>,
> {
    match r {
        Ok(a) => Ok(a@),
        Err(e) => Err(e@),
    }
}

/// `http::Uri::from_str`. A URI has one of the three forms of `uri_wf`, and no fragment is left in
/// it. A text that starts with `/` is a path with an optional query, if it is a URI at all, and
/// one of plain characters is. What stands behind a `#` in it makes no difference then. A
/// relative text is no URI.
#[verifier::external_body]
fn uri_from_str(s: &str) -> (r: Result<Uri, String>)
    ensures
        uri_outcome(r) == uri_parse(s@),
        r matches Ok(u) ==> uri_wf(u@),
        r matches Ok(u) ==> s@.len() > 0 && s@[0] == '/' ==> u@ == (UriView {
            scheme: None,
            authority: None,
            path_and_query: Some(split_path_and_query(s@)),
        }),
        r matches Ok(u) ==> s@.len() > 0 && s@[0] == '/' ==> uri_outcome(r) == uri_parse(
            s@.take(find(s@, '#') as int),
        ),
        is_plain_path(s@) ==> r is Ok,
        is_relative(s@) ==> r is Err,
{
    let u = http::Uri::from_str(s).map_err(|e| e.to_string())?;
    Ok(Uri {
        scheme: u.scheme_str().map(|s| s.to_owned()),
        authority: u.authority().map(|a| Authority {
            text: a.as_str().to_owned(),
            host: a.host().to_owned(),
            port: a.port().map(|p| p.as_str().to_owned()),
        }),
        path_and_query: u.path_and_query().map(|p| PathAndQuery {
            text: p.as_str().to_owned(),
            path: p.path().to_owned(),
            query: p.query().map(|q| q.to_owned()),
        }),
    })
}

/// `http::uri::Authority::from_str`. An authority keeps its text. One of plain characters is
/// read as a host and a port, behind a user if it names one.
#[verifier::external_body]
pub(crate) fn authority_from_str(s: &str) -> (r: Result<Authority, String>)
    ensures
        authority_outcome(r) == authority_parse(s@),
        r matches Ok(a) ==> a@.text == s@,
        r matches Ok(a) ==> is_plain_authority(s@) ==> a@ == split_authority(s@),
        is_plain_authority(s@) ==> r is Ok,
{
    let a = http::uri::Authority::from_str(s).map_err(|e| e.to_string())?;
    Ok(Authority {
        text: a.as_str().to_owned(),
        host: a.host().to_owned(),
        port: a.port().map(|p| p.as_str().to_owned()),
    })
}

/// `http::uri::Scheme::from_str` accepts up to 64 letters, digits and `+ - . ~`, and keeps them.
#[verifier::external_body]
pub(crate) fn scheme_from_str(s: &str) -> (r: Result<String, String>)
    ensures
        r matches Ok(scheme) ==> scheme@ == s@ && scheme_error(s@) is None,
        r matches Err(e) ==> scheme_error(s@) == Some(e@),
{
    let scheme = http::uri::Scheme::from_str(s).map_err(|e| e.to_string())?;
    Ok(scheme.as_str().to_owned())
}

/// What is wrong with these parts as those of a URI, if anything is.
pub open spec fn parts_error(parts: UriView) -> Option<Seq<char>> {
    if parts.scheme is Some && parts.authority is None {
        Some("authority missing"@)
    } else if parts.scheme is Some && parts.path_and_query is None {
        Some("path missing"@)
    } else if parts.scheme is None && parts.authority is Some && parts.path_and_query is Some {
        Some("scheme missing"@)
    } else {
        None
    }
}

/// The same optional text.
fn copy_text(s: &Option<String>) -> (r: Option<String>)
    ensures
        text_of(r) == text_of(*s),
{
    match s {
        Some(t) => Some(t.as_str().to_owned()),
        None => None,
    }
}

impl Uri {
    /// Reads a URI; the error is the text of what is wrong.
    pub fn parse(s: &str) -> (r: Result<Uri, String>)
        ensures
            uri_outcome(r) == uri_parse(s@),
            r matches Ok(u) ==> uri_wf(u@),
            // A text that starts with `/` is a path with an optional query.
            r matches Ok(u) ==> s@.len() > 0 && s@[0] == '/' ==> u@ == (UriView {
                scheme: None,
                authority: None,
                path_and_query: Some(split_path_and_query(s@)),
            }),
            // What stands behind a `#` in it makes no difference.
            r matches Ok(u) ==> s@.len() > 0 && s@[0] == '/' ==> uri_outcome(r) == uri_parse(
                s@.take(find(s@, '#') as int),
            ),
            is_plain_path(s@) ==> r is Ok,
            is_relative(s@) ==> r is Err,
    {
        uri_from_str(s)
    }

    /// Puts the parts of a URI together.
    pub fn from_parts(parts: Uri) -> (r: Result<Uri, String>)
        ensures
            r is Ok <==> parts_error(parts@) is None,
            r matches Ok(u) ==> u == parts,
            r matches Err(e) ==> parts_error(parts@) == Some(e@),
    {
        if parts.scheme.is_some() {
            if parts.authority.is_none() {
                return Err("authority missing".to_owned());
            }
            if parts.path_and_query.is_none() {
                return Err("path missing".to_owned());
            }
        } else if parts.authority.is_some() && parts.path_and_query.is_some() {
            return Err("scheme missing".to_owned());
        }
        Ok(parts)
    }

    /// The URI `/`.
    pub fn root() -> (r: Uri)
        ensures
            r@ == root_uri(),
    {
        proof {
            reveal_strlit("/");
        }
        assert("/"@ == seq!['/']);
        Uri {
            scheme: None,
            authority: None,
            path_and_query: Some(
                PathAndQuery { text: "/".to_owned(), path: "/".to_owned(), query: None },
            ),
        }
    }

    /// A URI with the same parts.
    pub fn copy(&self) -> (r: Uri)
        ensures
            r@ == self@,
    {
        Uri {
            scheme: copy_text(&self.scheme),
            authority: match &self.authority {
                Some(a) => Some(
                    Authority {
                        text: a.text.as_str().to_owned(),
                        host: a.host.as_str().to_owned(),
                        port: copy_text(&a.port),
                    },
                ),
                None => None,
            },
            path_and_query: match &self.path_and_query {
                Some(p) => Some(
                    PathAndQuery {
                        text: p.text.as_str().to_owned(),
                        path: p.path.as_str().to_owned(),
                        query: copy_text(&p.query),
                    },
                ),
                None => None,
            },
        }
    }

    /// The path, which is empty where the URI has none.
    pub fn path(&self) -> (r: &str)
        ensures
            r@ == path_of(self@),
    {
        match &self.path_and_query {
            Some(p) => p.path.as_str(),
            None => {
                proof {
                    reveal_strlit("");
                }
                assert(""@ == Seq::<char>::empty());
                ""
            },
        }
    }

    /// The host.
    pub fn host(&self) -> (r: Option<&str>)
        ensures
            r is Some <==> host_of(self@) is Some,
            r matches Some(h) ==> host_of(self@) == Some(h@),
    {
        match &self.authority {
            Some(a) => Some(a.host.as_str()),
            None => None,
        }
    }

    /// The text of the URI.
    pub fn to_text(&self) -> (r: String)
        ensures
            r@ == uri_text(self@),
    {
        let mut r = String::new();
        if let Some(s) = &self.scheme {
            r.append(s.as_str());
            r.append("://");
        }
        if let Some(a) = &self.authority {
            r.append(a.text.as_str());
        }
        r.append(self.path());
        if let Some(p) = &self.path_and_query {
            if let Some(q) = &p.query {
                let ghost before = r@;
                r.push('?');
                r.append(q.as_str());
                assert(r@ == before + (seq!['?'] + q@));
            }
        }
        r
    }
}

} // verus!
