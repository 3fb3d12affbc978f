//! File paths and file URIs: joining a path to the repository's root, taking the root off again,
//! and the URIs by which an editor names files.
//!
//! What a path is, and how two of them compare, is up to `std::path` on the platform that the
//! program runs on. A path is a text: of one that is no UTF-8, the bytes that are none have been
//! replaced.
use vstd::prelude::*;
use vstd::string::StringExecFns;

use crate::gitlab::types::text_model;
use crate::text::{chars_of, head, same_text, starts_with, string_of, string_texts};

verus! {

// ── Paths ───────────────────────────────────────────────────────────────────────────────────────

/// `c` separates the components of a path, on some platform at least.
pub open spec fn is_sep(c: char) -> bool {
    c == '/' || c == '\\'
}

/// `c` is an ASCII letter.
pub open spec fn is_letter(c: char) -> bool {
    'a' <= c <= 'z' || 'A' <= c <= 'Z'
}

/// The component of `p` behind the slash at `i` is empty, `.` or `..`.
pub open spec fn is_odd_component(p: Seq<char>, i: int) -> bool {
    ||| i + 1 == p.len()
    ||| p[i + 1] == '/'
    ||| p[i + 1] == '.' && (i + 2 == p.len() || p[i + 2] == '/' || (p[i + 2] == '.' && (i + 3
        == p.len() || p[i + 3] == '/')))
}

/// `p` is made of names behind slashes on every platform: it begins with a slash, behind each of its
/// slashes stands a name, and it holds no backslash.
pub open spec fn is_neat(p: Seq<char>) -> bool {
    &&& p.len() > 0
    &&& p[0] == '/'
    &&& forall|i: int| 0 <= i < p.len() && #[trigger] p[i] == '/' ==> !is_odd_component(p, i)
    &&& !p.contains('\\')
}

/// `part` is relative on every platform: no separator and no drive stands at its start.
pub open spec fn is_relative(part: Seq<char>) -> bool {
    &&& part.len() > 0
    &&& !is_sep(part[0])
    &&& !(part.len() >= 2 && is_letter(part[0]) && part[1] == ':')
}

/// `part` begins and ends with a component that counts, which an empty one and `.` do not.
pub open spec fn is_clean(part: Seq<char>) -> bool {
    let n = part.len() as int;
    &&& n > 0
    &&& !is_sep(part[0])
    &&& !(part[0] == '.' && (n == 1 || is_sep(part[1])))
    &&& !is_sep(part[n - 1])
    &&& !(part[n - 1] == '.' && (n == 1 || is_sep(part[n - 2])))
}

/// `root` is neither empty nor a drive alone, what stands at its start is at most a drive and a
/// separator, so that it names no share of a host and no device, and it does not end in `.`.
pub open spec fn is_ordinary(root: Seq<char>) -> bool {
    let n = root.len() as int;
    &&& n > 0
    &&& root[n - 1] != ':'
    &&& !(root[n - 1] == '.' && (n == 1 || is_sep(root[n - 2])))
    &&& !(n >= 2 && is_sep(root[0]) && is_sep(root[1]))
}

/// `path` reads `root`, a separator and `part`.
pub open spec fn reads_as(path: Seq<char>, root: Seq<char>, part: Seq<char>) -> bool {
    ||| is_sep(root.last()) && path == root + part
    ||| path == root + seq!['/'] + part
    ||| root.last() != '/' && path == root + seq!['\\'] + part
}

/// `path` reads `root`, a slash and `part`.
pub open spec fn reads_with_slash(path: Seq<char>, root: Seq<char>, part: Seq<char>) -> bool {
    if root.last() == '/' {
        path == root + part
    } else {
        path == root + seq!['/'] + part
    }
}

/// `part` under `root` on the platform `target`, which is named as compilers name it.
pub uninterp spec fn joined_path(target: Seq<char>, root: Seq<char>, part: Seq<char>) -> Seq<char>;

/// `path` without `root` before it on the platform `target`, which is named as compilers name it;
/// none where `path` does not lie under `root` there.
pub uninterp spec fn stripped_path(
    target: Seq<char>,
    path: Seq<char>,
    root: Seq<char>,
) -> Option<Seq<char>>;

/// The two paths have the same components on the platform `target`, which is named as compilers
/// name it.
pub uninterp spec fn has_same_components(target: Seq<char>, a: Seq<char>, b: Seq<char>) -> bool;

/// `path` is what `part` under `root` is on every platform: it is `part` where `root` is empty, and
/// where `root` is ordinary and `part` relative, it reads `root`, a separator and `part`.
pub open spec fn joins_plainly(root: Seq<char>, part: Seq<char>, path: Seq<char>) -> bool {
    &&& root.len() == 0 ==> path == part
    &&& is_ordinary(root) && is_relative(part) ==> reads_as(path, root, part) && (root.last() == '/'
        ==> path == root + part)
}

/// `rest` is what `path` without `root` is on every platform. Of what reads an ordinary `root`, a
/// separator and a clean part, it is the part, if anything is left; and something is left where
/// `root` begins with a slash and a slash separates them. Of neat paths it is what stands behind
/// `root` and a slash, and none where they do not stand there.
pub open spec fn strips_plainly(path: Seq<char>, root: Seq<char>, rest: Option<Seq<char>>) -> bool {
    &&& forall|part: Seq<char>|
        #![trigger is_clean(part)]
        is_clean(part) && is_ordinary(root) && reads_as(path, root, part) && rest is Some ==> rest
            == Some(part)
    &&& forall|part: Seq<char>|
        #![trigger is_clean(part)]
        is_clean(part) && is_ordinary(root) && root[0] == '/' && reads_with_slash(path, root, part)
            ==> rest == Some(part)
    &&& is_neat(path) && root.len() == 0 ==> rest == Some(path)
    &&& is_neat(path) && path == root ==> rest == Some(Seq::<char>::empty())
    &&& is_neat(path) && is_neat(root) && path != root && !starts_with(path, root + seq!['/'])
        ==> rest is None
}

/// What is known of `path`, which is `part` under `root`.
pub open spec fn is_join(root: Seq<char>, part: Seq<char>, path: Seq<char>) -> bool {
    &&& exists|target: Seq<char>| path == #[trigger] joined_path(target, root, part)
    &&& joins_plainly(root, part, path)
}

/// What is known of `rest`, which is `path` without `root` before it.
pub open spec fn is_below(path: Seq<char>, root: Seq<char>, rest: Option<Seq<char>>) -> bool {
    &&& exists|target: Seq<char>| rest == #[trigger] stripped_path(target, path, root)
    &&& strips_plainly(path, root, rest)
}

/// What is known of whether the two paths are the same: the same text is the same path, and other
/// text is another path where both are neat.
pub open spec fn is_same(a: Seq<char>, b: Seq<char>, same: bool) -> bool {
    &&& exists|target: Seq<char>| same == #[trigger] has_same_components(target, a, b)
    &&& a == b ==> same
    &&& is_neat(a) && is_neat(b) && a != b ==> !same
}

/// `std::path::Path::join`, as text.
///
/// It looks at the two texts alone, and at what a path is on the platform that the program runs on:
/// the result is what [`joined_path`] is on that platform. Under the empty path it is `part`. A
/// relative `part` stands behind `root` and a separator, of which none is added where `root` ends
/// in a slash. Nothing is said of what becomes of drives, shares and devices, which only some
/// platforms have, nor of a `part` that is not relative.
#[verifier::external_body]
fn path_join(root: &str, part: &str) -> (r: String)
    ensures
        exists|target: Seq<char>| r@ == #[trigger] joined_path(target, root@, part@),
        joins_plainly(root@, part@, r@),
{
    std::path::Path::new(root).join(part).to_string_lossy().into_owned()
}

/// `std::path::Path::strip_prefix`, as text.
///
/// It looks at the two texts alone, and at what a path is on the platform that the program runs on:
/// the result is what [`stripped_path`] is on that platform. It takes off whole components and
/// leaves the text behind them as it is, up to empty components and `.` at its start and its end;
/// there is no result where `root` is no prefix of `path`. Nothing is said of what becomes of
/// drives, shares and devices, which only some platforms have.
#[verifier::external_body]
fn path_strip_prefix(path: &str, root: &str) -> (r: Option<String>)
    ensures
        exists|target: Seq<char>| text_model(r) == #[trigger] stripped_path(target, path@, root@),
        strips_plainly(path@, root@, text_model(r)),
{
    std::path::Path::new(path).strip_prefix(root).ok().map(|p| p.to_string_lossy().into_owned())
}

/// `==` of two `std::path::Path`s.
///
/// It looks at the two texts alone, and at what a path is on the platform that the program runs on:
/// the result is what [`has_same_components`] is on that platform. A text is the same path as
/// itself, and of two paths without a backslash, an empty component or a dot, another text is
/// another path.
#[verifier::external_body]
fn path_eq(a: &str, b: &str) -> (r: bool)
    ensures
        exists|target: Seq<char>| r == #[trigger] has_same_components(target, a@, b@),
        a@ == b@ ==> r,
        is_neat(a@) && is_neat(b@) && a@ != b@ ==> !r,
{
    std::path::Path::new(a) == std::path::Path::new(b)
}

/// `part` under `root`.
pub fn join_path(root: &str, part: &str) -> (r: String)
    ensures
        is_join(root@, part@, r@),
{
    path_join(root, part)
}

/// `path` without `root` before it; none where `path` does not lie under `root`.
pub fn path_under(path: &str, root: &str) -> (r: Option<String>)
    ensures
        is_below(path@, root@, text_model(r)),
{
    path_strip_prefix(path, root)
}

/// Whether the two paths are the same.
pub fn is_same_path(a: &str, b: &str) -> (r: bool)
    ensures
        is_same(a@, b@, r),
{
    path_eq(a, b)
}

// ── File URIs ───────────────────────────────────────────────────────────────────────────────────

/// `c` stands for itself in a file's name and in a URI.
pub open spec fn is_plain_char(c: char) -> bool {
    ||| 'a' <= c <= 'z' || 'A' <= c <= 'Z' || '0' <= c <= '9'
    ||| c == '_' || c == '-' || c == '.' || c == '+' || c == '~' || c == '@' || c == ',' || c == '='
    ||| c == '(' || c == ')' || c == '[' || c == ']' || c == '!' || c == '$' || c == '&' || c == ';'
}

/// An absolute path, `/` between its components, that needs no escape in a URI: each component is
/// a name made of plain characters.
pub open spec fn is_plain_path(p: Seq<char>) -> bool {
    &&& p.len() > 0
    &&& p[0] == '/'
    &&& forall|i: int|
        0 <= i < p.len() ==> (is_plain_char(#[trigger] p[i]) || (p[i] == '/' && !is_odd_component(
            p,
            i,
        )))
}

/// The path can be read back from its URL: it is neat, and neither its first component nor its end
/// looks like a drive, of which a URL has its own idea.
pub open spec fn is_kept_path(p: Seq<char>) -> bool {
    let n = p.len() as int;
    &&& is_neat(p)
    &&& !(n >= 3 && is_letter(p[1]) && (p[2] == ':' || p[2] == '|') && (n == 3 || p[3] == '/'))
    &&& !(n >= 2 && is_letter(p[n - 2]) && (p[n - 1] == ':' || p[n - 1] == '|'))
}

/// The URL of the file at `path` on the platform `target`, which is named as compilers name it;
/// none where `path` is no absolute path there.
pub uninterp spec fn url_of_file(target: Seq<char>, path: Seq<char>) -> Option<Seq<char>>;

/// What the text `uri` holds as a URL: its host, and the segments of its path, still escaped, where
/// the path begins with a slash. None where `uri` is no URL.
pub uninterp spec fn url_parts_of(uri: Seq<char>) -> Option<
    (Option<Seq<char>>, Option<Seq<Seq<char>>>),
>;

/// The path of the file at the URL `uri` on the platform `target`, which is named as compilers name
/// it; none where `uri` is the URL of no file there.
pub uninterp spec fn file_of_url(target: Seq<char>, uri: Seq<char>) -> Option<Seq<char>>;

/// `url::Url::from_file_path`, and the URL's text.
///
/// It looks at the path alone, and at what a path is on the platform that the program runs on: the
/// result is what [`url_of_file`] is on that platform. It gives a URL only for a path that is
/// absolute on the platform, and that URL has the scheme `file`. A path that needs no escape stands
/// in it as it is. Nothing is said of which paths are absolute where a drive or a scheme may stand
/// before the root, nor of how other characters are escaped: both differ between platforms or
/// follow tables of the URL standard.
#[verifier::external_body]
fn url_from_file_path(path: &str) -> (r: Option<String>)
    ensures
        exists|target: Seq<char>| text_model(r) == #[trigger] url_of_file(target, path@),
        r matches Some(uri) ==> starts_with(uri@, "file://"@),
        r is Some && is_plain_path(path@) ==> r->0@ == "file://"@ + path@,
        !path@.contains(':') && !path@.contains('\\') && (path@.len() == 0 || path@[0] != '/')
            ==> r is None,
{
    tower_lsp::lsp_types::Url::from_file_path(path).ok().map(String::from)
}

/// The parts of a URL, as [`url_parts_of`] has them.
pub open spec fn url_parts_model(parts: Option<(Option<String>, Option<Vec<String>>)>) -> Option<
    (Option<Seq<char>>, Option<Seq<Seq<char>>>),
> {
    match parts {
        Some((host, segments)) => Some(
            (
                text_model(host),
                match segments {
                    Some(v) => Some(string_texts(v@)),
                    None => None,
                },
            ),
        ),
        None => None,
    }
}

/// `url::Url::parse`, and `url::Url::host_str` and `url::Url::path_segments` of the URL that it
/// gave.
///
/// They look at the text alone and do the same on every platform: the result is what
/// [`url_parts_of`] is. A text without a colon has no scheme and is no URL. The URL of a plain path
/// has no host, and the segments of its path are made of plain characters; that of a path that can be
/// read back has no host, and no drive before its other segments. Nothing is said of other URLs: how
/// they are read follows the URL standard.
#[verifier::external_body]
fn url_parts(uri: &str) -> (r: Option<(Option<String>, Option<Vec<String>>)>)
    ensures
        url_parts_model(r) == url_parts_of(uri@),
        !uri@.contains(':') ==> r is None,
        forall|p: Seq<char>|
            #![trigger is_plain_path(p)]
            is_plain_path(p) && uri@ == "file://"@ + p ==> is_plain_parts(url_parts_model(r)),
        forall|target: Seq<char>, p: Seq<char>|
            is_kept_path(p) && #[trigger] url_of_file(target, p) == Some(uri@) && r is Some
                ==> is_rooted(url_parts_model(r)),
{
    let url = tower_lsp::lsp_types::Url::parse(uri).ok()?;
    let host = url.host_str().map(String::from);
    let segments = url.path_segments().map(|s| s.map(String::from).collect());
    Some((host, segments))
}

/// There is no host, and the path is made of plain characters.
pub open spec fn is_plain_parts(
    parts: Option<(Option<Seq<char>>, Option<Seq<Seq<char>>>)>,
) -> bool {
    parts matches Some((None, Some(segments))) && forall|k: int, i: int|
        0 <= k < segments.len() && 0 <= i < segments[k].len() ==> is_plain_char(
            #[trigger] segments[k][i],
        )
}

/// There is no host, and a path that does not begin with a drive.
pub open spec fn is_rooted(parts: Option<(Option<Seq<char>>, Option<Seq<Seq<char>>>)>) -> bool {
    parts matches Some((None, Some(segments))) && (segments.len() > 0 ==> !is_drive_segment(
        segments[0],
    ))
}

/// The host is this machine.
pub open spec fn is_local(host: Option<Seq<char>>) -> bool {
    host is None || host == Some("localhost"@)
}

/// The segment of a URL's path names a drive, with a colon that may be escaped.
pub open spec fn is_drive_segment(s: Seq<char>) -> bool {
    ||| s.len() == 2 && is_letter(s[0]) && s[1] == ':'
    ||| s.len() == 4 && is_letter(s[0]) && s[1] == '%' && s[2] == '3' && (s[3] == 'a' || s[3]
        == 'A')
}

/// The segment of a URL's path names a directory that a host shares: it is not empty, and it does
/// not begin with a separator, which may be escaped.
pub open spec fn is_share_segment(s: Seq<char>) -> bool {
    &&& s.len() > 0
    &&& s[0] != '\\'
    &&& !(s.len() >= 3 && s[0] == '%' && ((s[1] == '2' && (s[2] == 'f' || s[2] == 'F')) || (s[1]
        == '5' && (s[2] == 'c' || s[2] == 'C'))))
}

/// Where a URL with this host and these segments is one of a file, the file's path is absolute: a
/// drive has a root behind it, and a host has a name behind it.
pub open spec fn leads_to_absolute(host: Option<Seq<char>>, segments: Seq<Seq<char>>) -> bool {
    if is_local(host) {
        !(segments.len() == 1 && is_drive_segment(segments[0]))
    } else {
        segments.len() > 0 && is_share_segment(segments[0])
    }
}

/// The text is a URL that may be asked for its file.
pub open spec fn is_file_url(uri: Seq<char>) -> bool {
    url_parts_of(uri) matches Some((host, Some(segments))) && leads_to_absolute(host, segments)
}

/// `url::Url::parse`, and `url::Url::to_file_path` on the URL that it gave, as text.
///
/// They look at the text alone, and at what a path is on the platform that the program runs on:
/// as long as there is memory for the path, the result is what [`file_of_url`] is on that platform.
/// Bytes of the path that are no UTF-8 are replaced. Where drives and hosts lead to files, the
/// path of a drive alone and that of a host with no name behind it are not absolute, and
/// `to_file_path` may panic: such URLs are left out. The URL of a plain path gives that path back,
/// and so does the URL that `from_file_path` gives of a path that can be read back, whatever was
/// escaped in it, wherever such a path is a file's path; on one platform the path keeps the scheme.
/// Nothing is said of other URLs: how they are read follows the URL standard, and what a path is
/// differs between platforms.
#[verifier::external_body]
fn url_to_file_path(uri: &str) -> (r: Option<String>)
    requires
        is_file_url(uri@),
    ensures
        exists|target: Seq<char>| text_model(r) == #[trigger] file_of_url(target, uri@),
        forall|p: Seq<char>|
            #![trigger is_plain_path(p)]
            is_plain_path(p) && uri@ == "file://"@ + p && r is Some ==> (r->0@ == p || r->0@
                == "file:"@ + p),
        forall|target: Seq<char>, p: Seq<char>|
            is_kept_path(p) && #[trigger] url_of_file(target, p) == Some(uri@) && r is Some ==> (
            r->0@ == p || r->0@ == "file:"@ + p),
{
    let url = tower_lsp::lsp_types::Url::parse(uri).ok()?;
    url.to_file_path().ok().map(|p| p.to_string_lossy().into_owned())
}

/// The URL of the root of a drive.
pub open spec fn drive_url(drive: Seq<char>) -> Seq<char> {
    "file:///"@ + drive + "/"@
}

/// The URL that is asked for the file at `uri`. For a drive alone it is that of the drive's root;
/// there is none where `uri` is no URL with a path, or names a host and nothing on it.
pub open spec fn asked_url(uri: Seq<char>) -> Option<Seq<char>> {
    match url_parts_of(uri) {
        Some((host, Some(segments))) => if leads_to_absolute(host, segments) {
            Some(uri)
        } else if is_local(host) && is_file_url(drive_url(segments[0])) {
            Some(drive_url(segments[0]))
        } else {
            None
        },
        _ => None,
    }
}

/// What is known of the URI of the file at `path`: it is the one that the file has on some
/// platform, there is none for a relative path, and that of a plain path is the path behind the
/// scheme.
pub open spec fn is_uri_of(path: Seq<char>, uri: Option<Seq<char>>) -> bool {
    &&& exists|target: Seq<char>| uri == #[trigger] url_of_file(target, path)
    &&& uri matches Some(u) ==> starts_with(u, "file://"@) && (is_plain_path(path) ==> u
        == "file://"@ + path)
    &&& !path.contains(':') && !path.contains('\\') && (path.len() == 0 || path[0] != '/') ==> uri
        is None
}

/// The drive, where `root` is the root of a drive and ends in the separator that drives have.
pub open spec fn drive_of(root: Seq<char>) -> Seq<char> {
    if root.len() > 0 && root.last() == '\\' {
        root.drop_last()
    } else {
        root
    }
}

/// The path that `uri` has, where `asked` is that of the URL that is asked.
pub open spec fn path_for(uri: Seq<char>, asked: Option<Seq<char>>) -> Option<Seq<char>> {
    match asked {
        Some(p) => Some(
            if asked_url(uri) == Some(uri) {
                p
            } else {
                drive_of(p)
            },
        ),
        None => None,
    }
}

/// What is known of the path of the file at `uri`: it is the one that the URL that is asked has on
/// some platform, that of a drive alone without a separator behind the drive; there is none where no
/// URL is asked or the text has no scheme; and that of a plain path's URI is the plain path, as is
/// that of what is a URI of a path that can be read back.
pub open spec fn is_path_of(uri: Seq<char>, path: Option<Seq<char>>) -> bool {
    &&& match asked_url(uri) {
        Some(url) => exists|target: Seq<char>|
            path == path_for(uri, #[trigger] file_of_url(target, url)),
        None => path is None,
    }
    &&& !uri.contains(':') ==> path is None
    &&& forall|p: Seq<char>|
        #![trigger is_plain_path(p)]
        is_plain_path(p) && uri == "file://"@ + p && path is Some ==> (path->0 == p || path->0
            == "file:"@ + p)
    &&& forall|target: Seq<char>, p: Seq<char>|
        is_kept_path(p) && #[trigger] url_of_file(target, p) == Some(uri) && path is Some ==> (
        path->0 == p || path->0 == "file:"@ + p)
}

/// The URI of the file at `path`.
pub fn uri_of_file(path: &str) -> (r: Option<String>)
    ensures
        is_uri_of(path@, text_model(r)),
{
    url_from_file_path(path)
}

/// Whether the host is this machine.
fn is_local_host(host: &Option<String>) -> (r: bool)
    ensures
        r == is_local(text_model(*host)),
{
    match host {
        Some(h) => {
            same_text(h.as_str(), "localhost")
        },
        None => true,
    }
}

/// Whether `c` is an ASCII letter.
fn is_ascii_letter(c: char) -> (r: bool)
    ensures
        r == is_letter(c),
{
    (c >= 'a' && c <= 'z') || (c >= 'A' && c <= 'Z')
}

/// Whether the segment names a drive.
fn names_drive(s: &[char]) -> (r: bool)
    ensures
        r == is_drive_segment(s@),
{
    (s.len() == 2 && is_ascii_letter(s[0]) && s[1] == ':') || (s.len() == 4 && is_ascii_letter(s[0])
        && s[1] == '%' && s[2] == '3' && (s[3] == 'a' || s[3] == 'A'))
}

/// Whether the segment names a directory that a host shares.
fn names_share(s: &[char]) -> (r: bool)
    ensures
        r == is_share_segment(s@),
{
    s.len() > 0 && s[0] != '\\' && !(s.len() >= 3 && s[0] == '%' && ((s[1] == '2' && (s[2] == 'f'
        || s[2] == 'F')) || (s[1] == '5' && (s[2] == 'c' || s[2] == 'C'))))
}

/// Whether a URL with this host and these segments leads to an absolute path.
fn is_absolute_url(host: &Option<String>, segments: &Vec<String>) -> (r: bool)
    ensures
        r == leads_to_absolute(text_model(*host), string_texts(segments@)),
{
    assert(string_texts(segments@).len() == segments@.len());
    if segments.len() == 0 {
        return is_local_host(host);
    }
    assert(string_texts(segments@)[0] == segments@[0]@);
    let first = chars_of(segments[0].as_str());
    if is_local_host(host) {
        !(segments.len() == 1 && names_drive(first.as_slice()))
    } else {
        names_share(first.as_slice())
    }
}

/// The URL that is asked for the file at `uri`.
fn url_to_ask(uri: &str) -> (r: Option<String>)
    ensures
        text_model(r) == asked_url(uri@),
        r matches Some(url) ==> is_file_url(url@),
        !uri@.contains(':') ==> r is None,
        forall|p: Seq<char>|
            #![trigger is_plain_path(p)]
            is_plain_path(p) && uri@ == "file://"@ + p && r is Some ==> r->0@ == uri@,
        forall|target: Seq<char>, p: Seq<char>|
            is_kept_path(p) && #[trigger] url_of_file(target, p) == Some(uri@) && r is Some
                ==> r->0@ == uri@,
{
    match url_parts(uri) {
        Some((host, Some(segments))) => {
            assert(string_texts(segments@).len() == segments@.len());
            if is_absolute_url(&host, &segments) {
                return Some(uri.to_owned());
            }
            if !is_local_host(&host) {
                return None;
            }
            let ghost first = string_texts(segments@)[0];
            assert(first == segments@[0]@);
            assert(is_drive_segment(first) && !is_plain_char(first[1]));
            let mut url = "file:///".to_owned();
            url.append(segments[0].as_str());
            url.append("/");
            assert(url@ == drive_url(segments@[0]@));
            match url_parts(url.as_str()) {
                Some((at, Some(names))) => {
                    if is_absolute_url(&at, &names) {
                        Some(url)
                    } else {
                        None
                    }
                },
                _ => None,
            }
        },
        _ => None,
    }
}

/// The drive, where `root` is the root of a drive.
fn drive_part(root: &str) -> (r: String)
    ensures
        r@ == drive_of(root@),
{
    let chars = chars_of(root);
    if chars.len() > 0 && chars[chars.len() - 1] == '\\' {
        let n: usize = chars.len() - 1;
        assert(root@.take(n as int) =~= root@.drop_last());
        string_of(head(chars.as_slice(), n))
    } else {
        root.to_owned()
    }
}

/// The path of the file at `uri`.
pub fn file_of_uri(uri: &str) -> (r: Option<String>)
    ensures
        is_path_of(uri@, text_model(r)),
{
    let asked = url_to_ask(uri);
    match asked {
        Some(url) => match url_to_file_path(url.as_str()) {
            Some(path) => {
                if same_text(url.as_str(), uri) {
                    Some(path)
                } else {
                    Some(drive_part(path.as_str()))
                }
            },
            None => None,
        },
        None => None,
    }
}

// ── Files of the repository ─────────────────────────────────────────────────────────────────────

/// What is known of the URI of the file that has the path `part` in the repository at `root`.
pub open spec fn is_uri_in(root: Seq<char>, part: Seq<char>, uri: Option<Seq<char>>) -> bool {
    exists|path: Seq<char>| #[trigger] is_join(root, part, path) && is_uri_of(path, uri)
}

/// What is known of the path, in the repository at `root`, of the file at `uri`.
pub open spec fn is_file_in(root: Seq<char>, uri: Seq<char>, file: Option<Seq<char>>) -> bool {
    exists|path: Option<Seq<char>>| #[trigger]
        is_path_of(uri, path) && match path {
            Some(p) => is_below(p, root, file),
            None => file is None,
        }
}

/// The URI of the file that has the path `part` in the repository.
pub fn uri_in(repo_root: &str, part: &str) -> (r: Option<String>)
    ensures
        is_uri_in(repo_root@, part@, text_model(r)),
{
    let path = join_path(repo_root, part);
    assert(is_join(repo_root@, part@, path@));
    uri_of_file(path.as_str())
}

/// The repo-relative path of the file at `uri`.
pub fn uri_to_repo_path(uri: &str, repo_root: &str) -> (r: Option<String>)
    ensures
        is_file_in(repo_root@, uri@, text_model(r)),
{
    let path = file_of_uri(uri);
    assert(is_path_of(uri@, text_model(path)));
    match path {
        Some(p) => path_under(p.as_str(), repo_root),
        None => None,
    }
}

// ── Laws ────────────────────────────────────────────────────────────────────────────────────────

/// The root comes off again: whatever is known to be a clean part under an ordinary root, what is
/// left of it without the root is the part, if anything is; and something is left where the root
/// begins with a slash and a slash was put behind it.
pub proof fn law_join_then_strip(
    root: Seq<char>,
    part: Seq<char>,
    path: Seq<char>,
    rest: Option<Seq<char>>,
)
    requires
        is_ordinary(root),
        is_relative(part),
        is_clean(part),
        is_join(root, part, path),
        is_below(path, root, rest),
    ensures
        rest is Some ==> rest == Some(part),
        root[0] == '/' && (root.last() == '/' || path[root.len() as int] == '/') ==> rest == Some(
            part,
        ),
{
    if root[0] == '/' && (root.last() == '/' || path[root.len() as int] == '/') {
        if root.last() != '/' {
            if path == root + part {
                assert(path[root.len() as int] == part[0]);
            }
            assert((root + seq!['\\'] + part)[root.len() as int] == '\\');
        }
        assert(reads_with_slash(path, root, part));
    }
}

/// An editor that names a file of the repository by the URI under which it was told of the file
/// is understood: whatever is known to be the URI of the joined path, and whatever is known to be
/// the path of that URI, the repo-relative path comes back, on every platform where a path that
/// begins with a slash is a file's path. The names may hold spaces and letters of any script.
pub proof fn law_uri_round_trip(
    root: Seq<char>,
    part: Seq<char>,
    joined: Seq<char>,
    uri: Seq<char>,
    path: Seq<char>,
    file: Option<Seq<char>>,
)
    requires
        root.len() > 0,
        root[0] == '/',
        is_ordinary(root),
        is_relative(part),
        is_clean(part),
        is_join(root, part, joined),
        root.last() == '/' || joined[root.len() as int] == '/',
        is_kept_path(joined),
        is_uri_of(joined, Some(uri)),
        is_path_of(uri, Some(path)),
        path[0] == '/',
        is_below(path, root, file),
    ensures
        file == Some(part),
{
    reveal_strlit("file:");
    let target = choose|target: Seq<char>| Some(uri) == #[trigger] url_of_file(target, joined);
    assert(url_of_file(target, joined) == Some(uri));
    assert(("file:"@ + joined)[0] == 'f');
    assert(path == joined);
    law_join_then_strip(root, part, joined, file);
}

/// What is asked for the file at a URI: the URI itself where it is a URL with a path, on this machine
/// and not of a drive alone, or on a host that shares something; the root of the drive where it is of
/// a drive alone, if that is such a URL; and nothing else.
pub proof fn law_asked_url(uri: Seq<char>)
    ensures
        (match url_parts_of(uri) {
            None => asked_url(uri) is None,
            Some((_, None)) => asked_url(uri) is None,
            Some((host, Some(segments))) => {
                let local = host is None || host == Some("localhost"@);
                let drive = segments.len() == 1 && is_drive_segment(segments[0]);
                &&& local && !drive ==> asked_url(uri) == Some(uri)
                &&& local && drive && is_file_url("file:///"@ + segments[0] + "/"@) ==> asked_url(
                    uri,
                ) == Some("file:///"@ + segments[0] + "/"@)
                &&& local && drive && !is_file_url("file:///"@ + segments[0] + "/"@) ==> asked_url(
                    uri,
                ) is None
                &&& !local && segments.len() > 0 && is_share_segment(segments[0]) ==> asked_url(uri)
                    == Some(uri)
                &&& !local && (segments.len() == 0 || !is_share_segment(segments[0])) ==> asked_url(
                    uri,
                ) is None
            },
        }),
{
}

/// A drive is a letter and a colon, which may be escaped; the name of a share is not empty and does
/// not begin with a separator, which may be escaped.
pub proof fn law_segments(letter: char, rest: Seq<char>)
    ensures
        is_drive_segment(seq![letter, ':']) <==> ('a' <= letter <= 'z' || 'A' <= letter <= 'Z'),
        is_drive_segment(seq![letter, '%', '3', 'a']) <==> ('a' <= letter <= 'z' || 'A' <= letter
            <= 'Z'),
        is_drive_segment(seq![letter, '%', '3', 'A']) <==> ('a' <= letter <= 'z' || 'A' <= letter
            <= 'Z'),
        rest.len() != 2 && rest.len() != 4 ==> !is_drive_segment(rest),
        !is_share_segment(Seq::empty()),
        !is_share_segment(seq!['\\'] + rest),
        !is_share_segment(seq!['%', '2', 'f'] + rest),
        !is_share_segment(seq!['%', '2', 'F'] + rest),
        !is_share_segment(seq!['%', '5', 'c'] + rest),
        !is_share_segment(seq!['%', '5', 'C'] + rest),
        letter != '\\' && letter != '%' ==> is_share_segment(seq![letter] + rest),
{
}

/// What is known of a path, of a URI and of the way between them is what the platform has, with
/// nothing left out.
pub proof fn law_known_by_platform(
    root: Seq<char>,
    part: Seq<char>,
    path: Seq<char>,
    uri: Seq<char>,
    found: Option<Seq<char>>,
)
    ensures
        is_uri_of(path, found) ==> exists|target: Seq<char>|
            found == #[trigger] url_of_file(target, path),
        is_path_of(uri, found) && asked_url(uri) == Some(uri) ==> exists|target: Seq<char>|
            found == #[trigger] file_of_url(target, uri),
        is_path_of(uri, found) && asked_url(uri) is None ==> found is None,
        is_join(root, part, path) ==> exists|target: Seq<char>|
            path == #[trigger] joined_path(target, root, part),
        is_below(path, root, found) ==> exists|target: Seq<char>|
            found == #[trigger] stripped_path(target, path, root),
        is_same(root, path, true) ==> exists|target: Seq<char>| #[trigger]
            has_same_components(target, root, path),
        is_uri_in(root, part, found) ==> exists|joined: Seq<char>| #[trigger]
            is_join(root, part, joined) && is_uri_of(joined, found),
        is_file_in(root, uri, found) ==> is_path_of(uri, None) && found is None || exists|
            at: Seq<char>,
        | #[trigger] is_below(at, root, found) && is_path_of(uri, Some(at)),
{
    if is_path_of(uri, found) && asked_url(uri) == Some(uri) {
        let target = choose|target: Seq<char>|
            found == path_for(uri, #[trigger] file_of_url(target, uri));
        assert(found == file_of_url(target, uri));
    }
    if is_file_in(root, uri, found) {
        let at = choose|at: Option<Seq<char>>| #[trigger]
            is_path_of(uri, at) && match at {
                Some(p) => is_below(p, root, found),
                None => found is None,
            };
        if let Some(p) = at {
            assert(is_below(p, root, found));
        }
    }
}

} // verus!
