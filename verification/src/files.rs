//! Replies from files.

use vstd::prelude::*;
use vstd::utf8::encode_utf8;

use crate::cache::bytes_reply_view;
use crate::decimal::{decimal, decimal_text};
use crate::headers::{
    header_fields, is_header_name, is_header_text, no_headers, set_header, HeaderFields,
};
use crate::reply::{Reply, ReplyBody, ReplyView};
use crate::text::find_last;

verus! {

/// The name of the file that stands for a directory.
pub const INDEX_FILE: &'static str = "index.html";

/// The media type that `mime_guess` gives for the extension of a path.
pub uninterp spec fn guessed_type(path: Seq<char>) -> Seq<char>;

/// Whether something stands behind the last `/` of a path, if it has one, that does not start with
/// its only dot.
pub open spec fn has_plain_end(path: Seq<char>) -> bool {
    match find_last(path, '/') {
        Some(i) => i + 1 < path.len() && (path[i as int + 1] != '.' || path.skip(
            i as int + 2,
        ).contains('.')),
        None => true,
    }
}

/// Whether every system finds the same extension in a path, or none that is known. On some, `\`
/// stands between the parts of a path, and `/` may not; a path may start with a drive and `:` or
/// with two `/`, and what follows these is then no file name.
pub open spec fn is_portable(path: Seq<char>) -> bool {
    &&& !path.contains('\\')
    &&& !(path.len() >= 1 && path[0] == ':')
    &&& !(path.len() >= 2 && path[1] == ':')
    &&& !(path.len() >= 2 && path[0] == '/' && path[1] == '/')
    &&& has_plain_end(path)
}

/// The reply of a media type and the content of a file.
pub open spec fn file_reply_view(content_type: Seq<char>, content: Seq<u8>) -> ReplyView {
    bytes_reply_view(
        200,
        HeaderFields::empty().insert("content-type"@, seq![encode_utf8(content_type)]).insert(
            "content-length"@,
            seq![encode_utf8(decimal(content.len()))],
        ),
        content,
    )
}

/// `mime_guess::from_path`, with `application/octet-stream` where it knows nothing. The type is
/// taken from a table by the extension alone, and a path without a dot has none. On a path in
/// which not every system finds the same extension, nothing is said but that the type can stand
/// in a header.
#[verifier::external_body]
fn guess_type(path: &str) -> (r: String)
    ensures
        is_portable(path@) ==> r@ == guessed_type(path@),
        !path@.contains('.') ==> r@ == "application/octet-stream"@,
        is_header_text(r@),
{
    mime_guess::from_path(path).first_or_octet_stream().to_string()
}

proof fn lemma_decimal_is_header_text(n: nat)
    ensures
        is_header_text(decimal(n)),
    decreases n,
{
    if n >= 10 {
        lemma_decimal_is_header_text(n / 10);
    }
}

/// `/` and `\`, which stand between the parts of a path on some systems.
pub open spec fn is_separator(c: char) -> bool {
    c == '/' || c == '\\'
}

/// Whether a path starts with no prefix that has paths rewritten on some systems.
pub open spec fn is_plain_root(path: Seq<char>) -> bool {
    !(path.len() >= 3 && is_separator(path[0]) && is_separator(path[1]) && path[2] == '?')
}

/// Whether a path is relative: it starts with no separator, and its first part names no drive.
pub open spec fn is_plain_part(part: Seq<char>) -> bool {
    &&& part.len() > 0 ==> !is_separator(part[0])
    &&& forall|i: int|
        0 <= i < part.len() && #[trigger] part[i] == ':' ==> exists|j: int|
            0 <= j < i && is_separator(#[trigger] part[j])
}

/// Whether a part cannot follow a path without a separator: the path is not empty, ends in none,
/// and is no bare drive.
pub open spec fn needs_separator(path: Seq<char>) -> bool {
    path.len() > 0 && !is_separator(path.last()) && !(path.len() == 2 && path[1] == ':')
}

/// Whether `r` is `path` and `part` with the separator `sep` between them, which does not stand at
/// the end of the path already.
pub open spec fn extends_with(
    path: Seq<char>,
    sep: char,
    part: Seq<char>,
    r: Seq<char>,
) -> bool {
    path.len() > 0 && path.last() != sep && r == path + seq![sep] + part
}

/// Whether `r` is `path` and `part`, with a separator between them if one is needed.
pub open spec fn extends(path: Seq<char>, part: Seq<char>, r: Seq<char>) -> bool {
    ||| !needs_separator(path) && r == path + part
    ||| extends_with(path, '/', part, r)
    ||| extends_with(path, '\\', part, r)
}

/// `PathBuf::push` puts a relative part behind a path, with a separator between them unless the
/// path is empty, ends in one or is a bare drive. What is relative is taken as std documents it
/// for Unix and Windows. Which separator is used, and what becomes of a part that is not relative,
/// differs between systems, and nothing is said of it.
#[verifier::external_body]
fn push_path(path: &str, part: &str) -> (r: String)
    ensures
        is_plain_root(path@) && is_plain_part(part@) ==> extends(path@, part@, r@),
{
    let mut buf = std::path::PathBuf::from(path);
    buf.push(part);
    buf.to_string_lossy().into_owned()
}

/// The path of the file at `relative` below `root`.
pub fn file_path(root: &str, relative: &str) -> (r: String)
    ensures
        is_plain_root(root@) && is_plain_part(relative@) ==> extends(root@, relative@, r@),
{
    push_path(root, relative)
}

/// The path of the file that is asked for by `path`: that of the file that stands for a directory,
/// if `path` is that of a directory.
pub fn requested_file(path: String, is_dir: bool) -> (r: String)
    ensures
        !is_dir ==> r@ == path@,
        is_dir && is_plain_root(path@) ==> extends(path@, INDEX_FILE@, r@),
{
    if !is_dir {
        return path;
    }
    proof {
        reveal_strlit("index.html");
    }
    push_path(path.as_str(), INDEX_FILE)
}

/// The reply with the content of a file, given its media type.
pub fn file_reply(content_type: &str, content: Vec<u8>) -> (r: Reply)
    requires
        is_header_text(content_type@),
    ensures
        r@ == file_reply_view(content_type@, content@),
{
    proof {
        reveal_strlit("content-type");
        reveal_strlit("content-length");
        assert(is_header_name("content-type"@));
        assert(is_header_name("content-length"@));
        lemma_decimal_is_header_text(content@.len());
    }
    let mut headers = no_headers();
    let len = decimal_text(content.len() as u64);
    let _ = set_header(&mut headers, "content-type", content_type);
    let _ = set_header(&mut headers, "content-length", len.as_str());
    Reply { status: 200, headers, body: ReplyBody::Bytes(content) }
}

/// The reply with the content of the file at `path`.
pub fn local_file(path: &str, content: Vec<u8>) -> (r: Reply)
    ensures
        is_portable(path@) ==> r@ == file_reply_view(guessed_type(path@), content@),
        !path@.contains('.') ==> r@ == file_reply_view("application/octet-stream"@, content@),
        exists|t: Seq<char>| is_header_text(t) && r@ == #[trigger] file_reply_view(t, content@),
{
    let content_type = guess_type(path);
    file_reply(content_type.as_str(), content)
}

} // verus!
