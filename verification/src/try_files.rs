//! Pure static-file routing: from a request URL path to a safe relative path
//! under the served root, plus a `Content-Type` lookup by extension.
//!
//! This is the deciding half of nginx's `try_files $uri /index.php`: whether a
//! request could map to a file (and then to which traversal-safe relative path),
//! or belongs to the PHP front controller. Whether the file exists is for the
//! caller to find out.
//!
//! Paths are `/`-separated strings, as a URL and a Unix file system write them.

use vstd::prelude::*;
use vstd::utf8::{
    decode_utf8, decode_utf8_encode_utf8, encode_scalar, encode_utf8, encode_utf8_decode_utf8, encode_utf8_valid_utf8,
    has_width_1_encoding, last_continuation_byte, leading_byte_width_1, leading_byte_width_2,
    leading_byte_width_3, leading_byte_width_4, second_last_continuation_byte,
    third_last_continuation_byte, valid_utf8,
};

use crate::text::{
    first_char, has_char, join, join_str, last_char, lemma_encode_concat, lemma_join_holds, lemma_join_split,
    lemma_split_first, lemma_split_join, lemma_split_last, lemma_split_nonempty, lower, lower_str, split,
    split_str, str_eq, string_from_utf8, views,
};

verus! {

/// The value of one hexadecimal digit.
pub open spec fn hex_value(b: u8) -> Option<u8> {
    if 0x30 <= b <= 0x39 {
        Some((b - 0x30) as u8)
    } else if 0x61 <= b <= 0x66 {
        Some((b - 0x61 + 10) as u8)
    } else if 0x41 <= b <= 0x46 {
        Some((b - 0x41 + 10) as u8)
    } else {
        None
    }
}

/// `bytes` with every `%XY` replaced by the byte that it names; nothing where a
/// `%` is not followed by two hexadecimal digits.
pub open spec fn unescape(bytes: Seq<u8>) -> Option<Seq<u8>>
    decreases bytes.len(),
{
    if bytes.len() == 0 {
        Some(Seq::empty())
    } else if bytes[0] == 0x25 {
        if bytes.len() >= 3 && hex_value(bytes[1]) is Some && hex_value(bytes[2]) is Some {
            match unescape(bytes.skip(3)) {
                Some(rest) => Some(
                    seq![(hex_value(bytes[1])->0 * 16 + hex_value(bytes[2])->0) as u8] + rest,
                ),
                None => None,
            }
        } else {
            None
        }
    } else {
        match unescape(bytes.skip(1)) {
            Some(rest) => Some(seq![bytes[0]] + rest),
            None => None,
        }
    }
}

/// One percent-decoded URL path segment; nothing on a malformed escape or where
/// the result is not UTF-8.
pub open spec fn percent_decoded(raw: Seq<char>) -> Option<Seq<char>> {
    match unescape(encode_utf8(raw)) {
        Some(bytes) => if valid_utf8(bytes) {
            Some(decode_utf8(bytes))
        } else {
            None
        },
        None => None,
    }
}

/// A segment that holds no separator and no NUL.
pub open spec fn plain_segment(seg: Seq<char>) -> bool {
    !seg.contains('/') && !seg.contains('\\') && !seg.contains('\0')
}

/// A segment that names one entry of the directory it is joined to.
pub open spec fn safe_segment(seg: Seq<char>) -> bool {
    &&& plain_segment(seg)
    &&& seg.len() > 0
    &&& seg != "."@
    &&& seg != ".."@
}

/// The decoded segments of a path, given its raw ones: empty raw segments are
/// dropped, and one that does not decode to a safe segment spoils the path.
pub open spec fn resolved(raws: Seq<Seq<char>>) -> Option<Seq<Seq<char>>>
    decreases raws.len(),
{
    if raws.len() == 0 {
        Some(Seq::empty())
    } else {
        match (resolved(raws.drop_last()), percent_decoded(raws.last())) {
            (Some(prev), Some(seg)) => if raws.last().len() == 0 {
                Some(prev)
            } else if safe_segment(seg) {
                Some(prev.push(seg))
            } else {
                None
            },
            _ => None,
        }
    }
}

/// The relative path that raw segments resolve to.
pub open spec fn resolved_path(raws: Seq<Seq<char>>) -> Option<Seq<char>> {
    match resolved(raws) {
        Some(segs) => Some(join(segs, '/')),
        None => None,
    }
}

/// `url` up to its first `?`.
pub open spec fn path_part(url: Seq<char>) -> Seq<char> {
    split(url, '?')[0]
}

/// The path that a request is routed by: that of its path and query, and the root where
/// only a query is there. A request for a bare authority has no path and query, which is
/// an empty text here, and no path.
pub open spec fn request_path(target: Seq<char>) -> Seq<char> {
    if target.len() > 0 && path_part(target).len() == 0 {
        "/"@
    } else {
        path_part(target)
    }
}

/// The path and query of a request, and the root where there is none.
pub open spec fn rooted_target(target: Seq<char>) -> Seq<char> {
    if target.len() == 0 {
        "/"@
    } else {
        target
    }
}

/// The relative path under the served root of the file that a URL asks for.
pub open spec fn static_path(url: Seq<char>) -> Option<Seq<char>> {
    let path = path_part(url);
    if path.len() == 0 || path.last() == '/' {
        None
    } else {
        resolved_path(split(path, '/'))
    }
}

/// The relative path under the served root of the directory that a URL asks for.
pub open spec fn directory_path(url: Seq<char>) -> Option<Seq<char>> {
    let path = path_part(url);
    if path.len() > 0 && path[0] == '/' && path.last() == '/' {
        resolved_path(split(path, '/'))
    } else {
        None
    }
}

/// The last component of a path that names something: neither empty nor `.`.
pub open spec fn last_component(parts: Seq<Seq<char>>) -> Option<Seq<char>>
    decreases parts.len(),
{
    if parts.len() == 0 {
        None
    } else if parts.last().len() == 0 || parts.last() == "."@ {
        last_component(parts.drop_last())
    } else {
        Some(parts.last())
    }
}

/// What follows the last dot of a path's final component, unless that dot starts
/// the component (`.htaccess`) or the component is `..`.
pub open spec fn extension(path: Seq<char>) -> Option<Seq<char>> {
    match last_component(split(path, '/')) {
        Some(name) => {
            let pieces = split(name, '.');
            if name == ".."@ || pieces.len() < 2 || (pieces.len() == 2 && pieces[0].len() == 0) {
                None
            } else {
                Some(pieces.last())
            }
        },
        None => None,
    }
}

/// The lowered extension of a path.
pub open spec fn lower_extension(path: Seq<char>) -> Option<Seq<char>> {
    match extension(path) {
        Some(ext) => Some(lower(ext)),
        None => None,
    }
}

/// An extension that a PHP interpreter executes or that reveals PHP source.
pub open spec fn php_extension(ext: Seq<char>) -> bool {
    ext == "php"@ || ext == "phtml"@ || ext == "php3"@ || ext == "php4"@ || ext == "php5"@ || ext
        == "php7"@ || ext == "phps"@ || ext == "pht"@
}

/// A path that looks like PHP source.
pub open spec fn php_source(path: Seq<char>) -> bool {
    lower_extension(path) is Some && php_extension(lower_extension(path)->0)
}

/// A raw segment that decodes to the name of a PHP source.
pub open spec fn php_segment(raw: Seq<char>) -> bool {
    percent_decoded(raw) is Some && php_source(percent_decoded(raw)->0)
}

/// The first PHP segment at or after `from` that something follows.
pub open spec fn php_index(raws: Seq<Seq<char>>, from: int) -> Option<int>
    decreases raws.len() - from,
{
    if from >= raws.len() - 1 {
        None
    } else if php_segment(raws[from]) {
        Some(from)
    } else {
        php_index(raws, from + 1)
    }
}

/// Raw segments as `PATH_INFO`: each decoded and led in by a `/`. Empty segments
/// stay, so the slashes of the request stay as they were.
pub open spec fn path_info_of(raws: Seq<Seq<char>>) -> Option<Seq<char>>
    decreases raws.len(),
{
    if raws.len() == 0 {
        Some(Seq::empty())
    } else {
        match (path_info_of(raws.drop_last()), percent_decoded(raws.last())) {
            (Some(prev), Some(seg)) => if plain_segment(seg) {
                Some(prev.push('/') + seg)
            } else {
                None
            },
            _ => None,
        }
    }
}

/// The script and the `PATH_INFO` that a URL splits into.
pub open spec fn php_split(url: Seq<char>) -> Option<(Seq<char>, Seq<char>)> {
    let raws = split(path_part(url), '/');
    match php_index(raws, 0) {
        Some(k) => match (resolved_path(raws.take(k + 1)), path_info_of(raws.skip(k + 1))) {
            (Some(script), Some(info)) => Some((script, info)),
            _ => None,
        },
        None => None,
    }
}

/// The `Content-Type` of files with the lowered extension `ext`.
pub open spec fn type_of_extension(ext: Seq<char>) -> Seq<char> {
    if ext == "html"@ || ext == "htm"@ {
        "text/html; charset=utf-8"@
    } else if ext == "css"@ {
        "text/css; charset=utf-8"@
    } else if ext == "js"@ || ext == "mjs"@ || ext == "cjs"@ {
        "text/javascript; charset=utf-8"@
    } else if ext == "json"@ || ext == "map"@ {
        "application/json"@
    } else if ext == "webmanifest"@ {
        "application/manifest+json"@
    } else if ext == "svg"@ {
        "image/svg+xml"@
    } else if ext == "ico"@ {
        "image/x-icon"@
    } else if ext == "png"@ {
        "image/png"@
    } else if ext == "jpg"@ || ext == "jpeg"@ {
        "image/jpeg"@
    } else if ext == "gif"@ {
        "image/gif"@
    } else if ext == "webp"@ {
        "image/webp"@
    } else if ext == "avif"@ {
        "image/avif"@
    } else if ext == "bmp"@ {
        "image/bmp"@
    } else if ext == "woff"@ {
        "font/woff"@
    } else if ext == "woff2"@ {
        "font/woff2"@
    } else if ext == "ttf"@ {
        "font/ttf"@
    } else if ext == "otf"@ {
        "font/otf"@
    } else if ext == "eot"@ {
        "application/vnd.ms-fontobject"@
    } else if ext == "txt"@ {
        "text/plain; charset=utf-8"@
    } else if ext == "xml"@ {
        "application/xml"@
    } else if ext == "pdf"@ {
        "application/pdf"@
    } else if ext == "wasm"@ {
        "application/wasm"@
    } else if ext == "mp4"@ {
        "video/mp4"@
    } else if ext == "webm"@ {
        "video/webm"@
    } else if ext == "mp3"@ {
        "audio/mpeg"@
    } else if ext == "wav"@ {
        "audio/wav"@
    } else if ext == "zip"@ {
        "application/zip"@
    } else {
        "application/octet-stream"@
    }
}

/// The `Content-Type` of the file at `path`.
pub open spec fn content_type(path: Seq<char>) -> Seq<char> {
    match lower_extension(path) {
        Some(ext) => type_of_extension(ext),
        None => "application/octet-stream"@,
    }
}

fn hex_val(b: u8) -> (r: Option<u8>)
    ensures
        r == hex_value(b),
        r is Some ==> r->0 < 16,
{
    if 0x30 <= b && b <= 0x39 {
        Some(b - 0x30)
    } else if 0x61 <= b && b <= 0x66 {
        Some(b - 0x61 + 10)
    } else if 0x41 <= b && b <= 0x46 {
        Some(b - 0x41 + 10)
    } else {
        None
    }
}

/// Percent-decode one URL path segment.
pub fn percent_decode(s: &str) -> (r: Option<String>)
    ensures
        r is Some <==> percent_decoded(s@) is Some,
        r is Some ==> r->0@ == percent_decoded(s@)->0,
{
    let bytes: &[u8] = s.as_bytes();
    let mut out: Vec<u8> = Vec::with_capacity(bytes.len());
    let mut i: usize = 0;
    assert(bytes@.skip(0) =~= bytes@);
    while i < bytes.len()
        invariant
            bytes@ == encode_utf8(s@),
            i <= bytes@.len(),
            unescape(bytes@) == match unescape(bytes@.skip(i as int)) {
                Some(rest) => Some(out@ + rest),
                None => None,
            },
        decreases bytes@.len() - i,
    {
        let b: u8 = bytes[i];
        let ghost here = bytes@.skip(i as int);
        let ghost done = out@;
        if b == 0x25 {
            if bytes.len() - i < 3 {
                return None;
            }
            match (hex_val(bytes[i + 1]), hex_val(bytes[i + 2])) {
                (Some(hi), Some(lo)) => {
                    out.push(hi * 16 + lo);
                    i = i + 3;
                    proof {
                        assert(here.skip(3) =~= bytes@.skip(i as int));
                        if let Some(rest) = unescape(bytes@.skip(i as int)) {
                            assert(done + (seq![(hi * 16 + lo) as u8] + rest) =~= out@ + rest);
                        }
                    }
                },
                _ => {
                    return None;
                },
            }
        } else {
            out.push(b);
            i = i + 1;
            proof {
                assert(here.skip(1) =~= bytes@.skip(i as int));
                if let Some(rest) = unescape(bytes@.skip(i as int)) {
                    assert(done + (seq![b] + rest) =~= out@ + rest);
                }
            }
        }
    }
    assert(bytes@.skip(i as int) =~= Seq::empty());
    assert(out@ + Seq::<u8>::empty() =~= out@);
    string_from_utf8(out)
}

/// Whether `seg` holds no separator and no NUL.
fn is_plain_segment(seg: &str) -> (r: bool)
    ensures
        r == plain_segment(seg@),
{
    !has_char(seg, '/') && !has_char(seg, '\\') && !has_char(seg, '\0')
}

/// The decoded, guarded segments among the first `n` raw ones.
fn resolve_raws(raws: &Vec<String>, n: usize) -> (r: Option<Vec<String>>)
    requires
        n <= raws@.len(),
    ensures
        r is Some <==> resolved(views(raws@).take(n as int)) is Some,
        r is Some ==> views(r->0@) == resolved(views(raws@).take(n as int))->0,
{
    let mut segs: Vec<String> = Vec::new();
    let mut i: usize = 0;
    assert(views(segs@) =~= Seq::empty());
    while i < n
        invariant
            i <= n <= raws@.len(),
            resolved(views(raws@).take(i as int)) == Some(views(segs@)),
        decreases n - i,
    {
        proof {
            let next = views(raws@).take(i + 1);
            assert(next.drop_last() =~= views(raws@).take(i as int));
            assert(next.last() == raws@[i as int]@);
        }
        let raw: &str = raws[i].as_str();
        let seg: String = match percent_decode(raw) {
            Some(seg) => seg,
            None => {
                proof {
                    lemma_resolved_prefix(views(raws@), i + 1, n as int);
                }
                return None;
            },
        };
        if !raw.is_empty() {
            if seg.as_str().is_empty() || str_eq(seg.as_str(), ".") || str_eq(seg.as_str(), "..")
                || !is_plain_segment(seg.as_str()) {
                proof {
                    lemma_resolved_prefix(views(raws@), i + 1, n as int);
                }
                return None;
            }
            let ghost before = views(segs@);
            let ghost added = seg@;
            segs.push(seg);
            assert(views(segs@) =~= before.push(added));
        }
        i = i + 1;
    }
    Some(segs)
}

/// What spoils a prefix spoils the whole.
proof fn lemma_resolved_prefix(raws: Seq<Seq<char>>, m: int, n: int)
    requires
        0 <= m <= n <= raws.len(),
        resolved(raws.take(m)) is None,
    ensures
        resolved(raws.take(n)) is None,
    decreases n - m,
{
    if m < n {
        assert(raws.take(m + 1).drop_last() =~= raws.take(m));
        lemma_resolved_prefix(raws, m + 1, n);
    }
}

/// Percent-decode and guard every `/`-separated segment of `path`, and join them
/// to the relative path.
fn resolve_segments(path: &str) -> (r: Option<String>)
    ensures
        r is Some <==> resolved_path(split(path@, '/')) is Some,
        r is Some ==> r->0@ == resolved_path(split(path@, '/'))->0,
{
    let raws: Vec<String> = split_str(path, '/');
    assert(views(raws@).take(raws@.len() as int) =~= views(raws@));
    match resolve_raws(&raws, raws.len()) {
        Some(segs) => Some(join_str(&segs, '/')),
        None => None,
    }
}

/// The part of `url_path` before its query.
fn path_of(url_path: &str) -> (path: String)
    ensures
        path@ == path_part(url_path@),
{
    let pieces: Vec<String> = split_str(url_path, '?');
    let path: String = pieces[0].clone();
    assert(views(pieces@)[0] == pieces@[0]@);
    path
}

/// The path that a request is routed by.
pub fn path_of_request(target: &str) -> (path: String)
    ensures
        path@ == request_path(target@),
{
    let path: String = path_of(target);
    if first_char(target).is_some() && first_char(path.as_str()).is_none() {
        "/".to_owned()
    } else {
        path
    }
}

/// The path and query of a request, and the root where there is none.
pub fn target_or_root(target: &str) -> (r: String)
    ensures
        r@ == rooted_target(target@),
{
    if first_char(target).is_none() {
        "/".to_owned()
    } else {
        target.to_owned()
    }
}

/// The safe relative path of the file that a request URL path asks for, or `None`
/// when the request should go to the front controller (`index.php`).
///
/// `None` for the site root (`/`), any directory request (trailing `/`), and any
/// path that fails the traversal guard. Every returned segment is percent-decoded
/// and is a single, real path component, so that joining the path to a root cannot
/// leave that root by string manipulation alone.
#[must_use]
pub fn static_candidate(url_path: &str) -> (rel: Option<String>)
    ensures
        rel is Some <==> static_path(url_path@) is Some,
        rel is Some ==> rel->0@ == static_path(url_path@)->0,
{
    let path: String = path_of(url_path);
    match last_char(path.as_str()) {
        None => None,
        Some(c) => if c == '/' {
            None
        } else {
            resolve_segments(path.as_str())
        },
    }
}

/// The safe relative path of the directory that a request URL path asks for, to
/// look for a directory index there.
///
/// `None` for anything that is not a directory request, or that fails the
/// traversal guard of [`static_candidate`]. The root `/` gives the empty path.
#[must_use]
pub fn directory_candidate(url_path: &str) -> (rel: Option<String>)
    ensures
        rel is Some <==> directory_path(url_path@) is Some,
        rel is Some ==> rel->0@ == directory_path(url_path@)->0,
{
    let path: String = path_of(url_path);
    match (first_char(path.as_str()), last_char(path.as_str())) {
        (Some(first), Some(last)) => if first == '/' && last == '/' {
            resolve_segments(path.as_str())
        } else {
            None
        },
        _ => None,
    }
}

/// Split a `PATH_INFO`-style URL path at its first PHP-source segment into the
/// candidate script path and the decoded `PATH_INFO` remainder, which always
/// starts with `/` (nginx's `fastcgi_split_path_info ^(.+?\.php)(/.*)$`, non-greedy).
///
/// `None` when no segment with trailing path data is PHP source (a plain
/// `/foo.php` is not a split; `/foo.php/` has the remainder `/`), or when the
/// script half fails the guard of [`static_candidate`]. Remainder segments may be
/// `.` and `..`, since `PATH_INFO` is data for the script and not a file path, but
/// may not decode to anything with `/`, `\` or NUL in it. The slashes of the
/// remainder stay as the request wrote them. The caller must still verify that the
/// script is a real file.
#[must_use]
pub fn php_split_candidate(url_path: &str) -> (r: Option<(String, String)>)
    ensures
        r is Some <==> php_split(url_path@) is Some,
        r is Some ==> ((r->0).0@, (r->0).1@) == php_split(url_path@)->0,
{
    let path: String = path_of(url_path);
    let raws: Vec<String> = split_str(path.as_str(), '/');
    let ghost all = views(raws@);
    let mut k: usize = 0;
    while k < raws.len() - 1
        invariant_except_break
            k <= raws@.len() - 1,
            all == views(raws@),
            php_index(all, 0) == php_index(all, k as int),
        ensures
            all == views(raws@),
            k <= raws@.len() - 1,
            php_index(all, 0) == (if k < raws@.len() - 1 {
                Some(k as int)
            } else {
                None
            }),
        decreases raws@.len() - k,
    {
        let is_php: bool = match percent_decode(raws[k].as_str()) {
            Some(seg) => is_php_source(seg.as_str()),
            None => false,
        };
        assert(is_php == php_segment(all[k as int]));
        if is_php {
            break;
        }
        k = k + 1;
    }
    if k == raws.len() - 1 {
        return None;
    }
    let segs: Vec<String> = match resolve_raws(&raws, k + 1) {
        Some(segs) => segs,
        None => {
            return None;
        },
    };
    let ghost rest = all.skip(k + 1);
    let mut info: String = String::new();
    let mut i: usize = k + 1;
    assert(rest.take(0) =~= Seq::empty());
    while i < raws.len()
        invariant
            all == views(raws@),
            all == split(path_part(url_path@), '/'),
            php_index(all, 0) == Some(k as int),
            k + 1 <= i <= raws@.len(),
            rest == all.skip(k + 1),
            path_info_of(rest.take(i - (k + 1))) == Some(info@),
        decreases raws@.len() - i,
    {
        proof {
            let next = rest.take(i - (k + 1) + 1);
            assert(next.drop_last() =~= rest.take(i - (k + 1)));
            assert(next.last() == raws@[i as int]@);
        }
        match percent_decode(raws[i].as_str()) {
            Some(seg) => {
                if !is_plain_segment(seg.as_str()) {
                    proof {
                        lemma_path_info_prefix(rest, i - (k + 1) + 1, rest.len() as int);
                        assert(rest.take(rest.len() as int) =~= rest);
                    }
                    return None;
                }
                info.push('/');
                info.append(seg.as_str());
            },
            None => {
                proof {
                    lemma_path_info_prefix(rest, i - (k + 1) + 1, rest.len() as int);
                    assert(rest.take(rest.len() as int) =~= rest);
                }
                return None;
            },
        }
        i = i + 1;
    }
    assert(rest.take(rest.len() as int) =~= rest);
    Some((join_str(&segs, '/'), info))
}

/// What spoils a prefix of the remainder spoils the whole.
proof fn lemma_path_info_prefix(raws: Seq<Seq<char>>, m: int, n: int)
    requires
        0 <= m <= n <= raws.len(),
        path_info_of(raws.take(m)) is None,
    ensures
        path_info_of(raws.take(n)) is None,
    decreases n - m,
{
    if m < n {
        assert(raws.take(m + 1).drop_last() =~= raws.take(m));
        lemma_path_info_prefix(raws, m + 1, n);
    }
}

/// Lowered file extension, if any.
fn ext_lower(path: &str) -> (ext: Option<String>)
    ensures
        ext is Some <==> lower_extension(path@) is Some,
        ext is Some ==> ext->0@ == lower_extension(path@)->0,
{
    let parts: Vec<String> = split_str(path, '/');
    let mut n: usize = parts.len();
    assert(views(parts@).take(n as int) =~= views(parts@));
    while n > 0 && (parts[n - 1].as_str().is_empty() || str_eq(parts[n - 1].as_str(), "."))
        invariant
            n <= parts@.len(),
            last_component(views(parts@)) == last_component(views(parts@).take(n as int)),
        decreases n,
    {
        assert(views(parts@).take(n as int).drop_last() =~= views(parts@).take(n - 1));
        n = n - 1;
    }
    if n == 0 {
        return None;
    }
    let name: &str = parts[n - 1].as_str();
    assert(views(parts@).take(n as int).last() == name@);
    if str_eq(name, "..") {
        return None;
    }
    let pieces: Vec<String> = split_str(name, '.');
    assert(views(pieces@)[0] == pieces@[0]@);
    if pieces.len() < 2 || (pieces.len() == 2 && pieces[0].as_str().is_empty()) {
        return None;
    }
    assert(views(pieces@).last() == pieces@.last()@);
    Some(lower_str(pieces[pieces.len() - 1].as_str()))
}

/// Whether `path` looks like PHP source. Such a path must never be served as a
/// static file (it would leak source), so the front controller handles it.
#[must_use]
pub fn is_php_source(path: &str) -> (r: bool)
    ensures
        r == php_source(path@),
{
    match ext_lower(path) {
        Some(ext) => {
            let e: &str = ext.as_str();
            str_eq(e, "php") || str_eq(e, "phtml") || str_eq(e, "php3") || str_eq(e, "php4")
                || str_eq(e, "php5") || str_eq(e, "php7") || str_eq(e, "phps") || str_eq(e, "pht")
        },
        None => false,
    }
}

/// The `Content-Type` to serve a static file with, keyed on its extension.
/// Falls back to `application/octet-stream` for anything unrecognised.
#[must_use]
pub fn content_type_for(path: &str) -> (r: &'static str)
    ensures
        r@ == content_type(path@),
{
    match ext_lower(path) {
        Some(ext) => {
            let e: &str = ext.as_str();
            if str_eq(e, "html") || str_eq(e, "htm") {
                "text/html; charset=utf-8"
            } else if str_eq(e, "css") {
                "text/css; charset=utf-8"
            } else if str_eq(e, "js") || str_eq(e, "mjs") || str_eq(e, "cjs") {
                "text/javascript; charset=utf-8"
            } else if str_eq(e, "json") || str_eq(e, "map") {
                "application/json"
            } else if str_eq(e, "webmanifest") {
                "application/manifest+json"
            } else if str_eq(e, "svg") {
                "image/svg+xml"
            } else if str_eq(e, "ico") {
                "image/x-icon"
            } else if str_eq(e, "png") {
                "image/png"
            } else if str_eq(e, "jpg") || str_eq(e, "jpeg") {
                "image/jpeg"
            } else if str_eq(e, "gif") {
                "image/gif"
            } else if str_eq(e, "webp") {
                "image/webp"
            } else if str_eq(e, "avif") {
                "image/avif"
            } else if str_eq(e, "bmp") {
                "image/bmp"
            } else if str_eq(e, "woff") {
                "font/woff"
            } else if str_eq(e, "woff2") {
                "font/woff2"
            } else if str_eq(e, "ttf") {
                "font/ttf"
            } else if str_eq(e, "otf") {
                "font/otf"
            } else if str_eq(e, "eot") {
                "application/vnd.ms-fontobject"
            } else if str_eq(e, "txt") {
                "text/plain; charset=utf-8"
            } else if str_eq(e, "xml") {
                "application/xml"
            } else if str_eq(e, "pdf") {
                "application/pdf"
            } else if str_eq(e, "wasm") {
                "application/wasm"
            } else if str_eq(e, "mp4") {
                "video/mp4"
            } else if str_eq(e, "webm") {
                "video/webm"
            } else if str_eq(e, "mp3") {
                "audio/mpeg"
            } else if str_eq(e, "wav") {
                "audio/wav"
            } else if str_eq(e, "zip") {
                "application/zip"
            } else {
                "application/octet-stream"
            }
        },
        None => "application/octet-stream",
    }
}

/// Resolved segments are safe ones.
proof fn lemma_resolved_safe(raws: Seq<Seq<char>>)
    requires
        resolved(raws) is Some,
    ensures
        forall|i: int|
            0 <= i < resolved(raws)->0.len() ==> safe_segment(#[trigger] (resolved(raws)->0)[i]),
    decreases raws.len(),
{
    if raws.len() > 0 {
        lemma_resolved_safe(raws.drop_last());
    }
}

/// The path that raw segments resolve to splits into safe segments, or is empty.
proof fn lemma_resolved_path_safe(raws: Seq<Seq<char>>)
    requires
        resolved_path(raws) is Some,
    ensures
        resolved_path(raws)->0.len() == 0 || forall|i: int|
            0 <= i < split(resolved_path(raws)->0, '/').len() ==> safe_segment(
                #[trigger] split(resolved_path(raws)->0, '/')[i],
            ),
{
    lemma_resolved_safe(raws);
    let segs = resolved(raws)->0;
    if segs.len() > 0 {
        assert forall|i: int| 0 <= i < segs.len() implies !(#[trigger] segs[i]).contains('/') by {
            assert(safe_segment(segs[i]));
        }
        lemma_split_join(segs, '/');
    }
}

/// No request path leads out of the served root: what a file or directory request
/// resolves to is a chain of single path components, none of them empty, `.` or
/// `..`, and none holding a separator or NUL. (The root directory's path is empty.)
pub proof fn law_candidates_stay_below_the_root(url: Seq<char>)
    ensures
        static_path(url) is Some ==> forall|i: int|
            0 <= i < split(static_path(url)->0, '/').len() ==> safe_segment(
                #[trigger] split(static_path(url)->0, '/')[i],
            ),
        directory_path(url) is Some ==> directory_path(url)->0.len() == 0 || forall|i: int|
            0 <= i < split(directory_path(url)->0, '/').len() ==> safe_segment(
                #[trigger] split(directory_path(url)->0, '/')[i],
            ),
        php_split(url) is Some ==> forall|i: int|
            0 <= i < split((php_split(url)->0).0, '/').len() ==> safe_segment(
                #[trigger] split((php_split(url)->0).0, '/')[i],
            ),
{
    let path = path_part(url);
    let raws = split(path, '/');
    lemma_split_nonempty(path, '/');
    if static_path(url) is Some {
        lemma_resolved_path_safe(raws);
        lemma_split_last(path, '/');
        lemma_resolved_ends(raws);
    }
    if directory_path(url) is Some {
        lemma_resolved_path_safe(raws);
    }
    if php_split(url) is Some {
        let k = php_index(raws, 0)->0;
        lemma_php_index(raws, 0);
        let half = raws.take(k + 1);
        lemma_resolved_path_safe(half);
        lemma_php_segment_nonempty(raws[k]);
        assert(half.last() == raws[k]);
        lemma_resolved_ends(half);
    }
}

/// A path whose last raw segment is not empty resolves to a path that is not empty.
proof fn lemma_resolved_ends(raws: Seq<Seq<char>>)
    requires
        resolved(raws) is Some,
        raws.len() > 0,
        raws.last().len() > 0,
    ensures
        resolved(raws)->0.len() > 0,
        join(resolved(raws)->0, '/').len() > 0,
        percent_decoded(raws.last()) == Some(resolved(raws)->0.last()),
{
    let segs = resolved(raws)->0;
    assert(safe_segment(segs.last()));
}

/// What [`php_index`] finds is a PHP segment with something behind it, and nothing
/// before it is one.
proof fn lemma_php_index(raws: Seq<Seq<char>>, from: int)
    requires
        0 <= from,
        php_index(raws, from) is Some,
    ensures
        from <= php_index(raws, from)->0 < raws.len() - 1,
        php_segment(raws[php_index(raws, from)->0]),
        forall|i: int| from <= i < php_index(raws, from)->0 ==> !php_segment(#[trigger] raws[i]),
    decreases raws.len() - from,
{
    if from < raws.len() - 1 && !php_segment(raws[from]) {
        lemma_php_index(raws, from + 1);
    }
}

/// A PHP segment is not empty.
proof fn lemma_php_segment_nonempty(raw: Seq<char>)
    requires
        php_segment(raw),
    ensures
        raw.len() > 0,
{
    if raw.len() == 0 {
        assert(encode_utf8(raw) =~= Seq::empty());
        assert(percent_decoded(raw)->0 =~= Seq::empty());
        assert(split(Seq::<char>::empty(), '/') =~= seq![Seq::<char>::empty()]);
        reveal_with_fuel(last_component, 2);
    }
}

/// A query never changes what a path resolves to.
pub proof fn law_query_is_ignored(path: Seq<char>, query: Seq<char>)
    requires
        !path.contains('?'),
    ensures
        static_path(path.push('?') + query) == static_path(path),
        directory_path(path.push('?') + query) == directory_path(path),
        php_split(path.push('?') + query) == php_split(path),
{
    lemma_split_first(path, query, '?');
}

/// A request asks for a file or for a directory, never for both.
pub proof fn law_file_or_directory(url: Seq<char>)
    ensures
        static_path(url) is None || directory_path(url) is None,
{
}

/// A split names a PHP source as its script, no earlier component of which is one
/// itself, and a remainder that starts with `/` and holds no `\` and no NUL.
pub proof fn law_php_split_shape(url: Seq<char>)
    requires
        php_split(url) is Some,
    ensures
        php_source((php_split(url)->0).0),
        forall|i: int|
            0 <= i < split((php_split(url)->0).0, '/').len() - 1 ==> !php_source(
                #[trigger] split((php_split(url)->0).0, '/')[i],
            ),
        (php_split(url)->0).1.len() > 0,
        (php_split(url)->0).1[0] == '/',
        !(php_split(url)->0).1.contains('\\'),
        !(php_split(url)->0).1.contains('\0'),
{
    let raws = split(path_part(url), '/');
    let k = php_index(raws, 0)->0;
    lemma_php_index(raws, 0);
    let half = raws.take(k + 1);
    lemma_php_segment_nonempty(raws[k]);
    assert(half.last() == raws[k]);
    lemma_resolved_ends(half);
    let segs = resolved(half)->0;
    lemma_resolved_safe(half);
    assert forall|i: int| 0 <= i < segs.len() implies !(#[trigger] segs[i]).contains('/') by {
        assert(safe_segment(segs[i]));
    }
    lemma_split_join(segs, '/');
    let last = segs.last();
    assert(safe_segment(last));
    lemma_split_first(last, Seq::empty(), '/');
    assert(last_component(seq![last]) == Some(last));
    assert(last_component(segs) == Some(last));
    let before = half.drop_last();
    assert(before =~= raws.take(k));
    assert forall|i: int| 0 <= i < before.len() implies !php_segment(#[trigger] before[i]) by {
        assert(before[i] == raws[i]);
    }
    lemma_resolved_not_php(before);
    assert(segs =~= resolved(before)->0.push(last));
    lemma_path_info_shape(raws.skip(k + 1));
}

/// Raw segments that are not PHP decode to segments that are not.
proof fn lemma_resolved_not_php(raws: Seq<Seq<char>>)
    requires
        resolved(raws) is Some,
        forall|i: int| 0 <= i < raws.len() ==> !php_segment(#[trigger] raws[i]),
    ensures
        forall|i: int|
            0 <= i < resolved(raws)->0.len() ==> !php_source(#[trigger] (resolved(raws)->0)[i]),
    decreases raws.len(),
{
    if raws.len() > 0 {
        assert forall|i: int| 0 <= i < raws.drop_last().len() implies !php_segment(
            #[trigger] raws.drop_last()[i],
        ) by {
            assert(raws.drop_last()[i] == raws[i]);
        }
        lemma_resolved_not_php(raws.drop_last());
        assert(!php_segment(raws[raws.len() - 1]));
    }
}

/// The shape of a remainder.
proof fn lemma_path_info_shape(raws: Seq<Seq<char>>)
    requires
        path_info_of(raws) is Some,
    ensures
        raws.len() > 0 ==> path_info_of(raws)->0.len() > 0 && path_info_of(raws)->0[0] == '/',
        !path_info_of(raws)->0.contains('\\'),
        !path_info_of(raws)->0.contains('\0'),
    decreases raws.len(),
{
    if raws.len() > 0 {
        lemma_path_info_shape(raws.drop_last());
        let prev = path_info_of(raws.drop_last())->0;
        let seg = percent_decoded(raws.last())->0;
        let info = prev.push('/') + seg;
        assert forall|c: char| c != '/' && info.contains(c) implies prev.contains(c) || seg.contains(
            c,
        ) by {
            let i = choose|i: int| 0 <= i < info.len() && info[i] == c;
            if i < prev.len() {
                assert(prev[i] == c);
            } else {
                assert(seg[i - prev.len() - 1] == c);
            }
        }
        if raws.drop_last().len() == 0 {
            assert(prev =~= Seq::empty());
        }
    }
}

/// One character's encoding holds a `%` byte only if the character is `%`.
proof fn lemma_percent_byte(c: char)
    requires
        c != '%',
    ensures
        !encode_scalar(c as u32).contains(0x25u8),
{
    let s = c as u32;
    let bytes = encode_scalar(s);
    assert(s != 0x25);
    assert(has_width_1_encoding(s) && s != 0x25 ==> leading_byte_width_1(s) != 0x25)
        by (bit_vector);
    assert(leading_byte_width_2(s) >= 0xc0 && leading_byte_width_3(s) >= 0xe0
        && leading_byte_width_4(s) >= 0xf0) by (bit_vector);
    assert(last_continuation_byte(s) >= 0x80 && second_last_continuation_byte(s) >= 0x80
        && third_last_continuation_byte(s) >= 0x80) by (bit_vector);
    assert forall|i: int| 0 <= i < bytes.len() implies bytes[i] != 0x25u8 by {}
}

/// Text without `%` has an encoding without `%`.
proof fn lemma_percent_free(s: Seq<char>)
    requires
        !s.contains('%'),
    ensures
        !encode_utf8(s).contains(0x25u8),
    decreases s.len(),
{
    if s.len() > 0 {
        assert(s.contains(s[0]));
        lemma_percent_byte(s[0]);
        assert(!s.drop_first().contains('%')) by {
            if s.drop_first().contains('%') {
                let k = choose|k: int| 0 <= k < s.drop_first().len() && s.drop_first()[k] == '%';
                assert(s[k + 1] == '%');
            }
        }
        lemma_percent_free(s.drop_first());
        let head = encode_scalar(s[0] as u32);
        let tail = encode_utf8(s.drop_first());
        assert forall|i: int| 0 <= i < (head + tail).len() implies (head + tail)[i] != 0x25u8 by {
            if i < head.len() {
                assert(head.contains(head[i]));
            } else {
                assert(tail.contains(tail[i - head.len()]));
            }
        }
    }
}

/// Bytes without `%` unescape to themselves.
proof fn lemma_unescape_identity(bytes: Seq<u8>)
    requires
        !bytes.contains(0x25u8),
    ensures
        unescape(bytes) == Some(bytes),
    decreases bytes.len(),
{
    if bytes.len() > 0 {
        let rest = bytes.skip(1);
        assert(bytes.contains(bytes[0]));
        assert(!rest.contains(0x25u8)) by {
            if rest.contains(0x25u8) {
                let k = choose|k: int| 0 <= k < rest.len() && rest[k] == 0x25u8;
                assert(bytes[k + 1] == 0x25u8);
            }
        }
        lemma_unescape_identity(rest);
        assert(seq![bytes[0]] + rest =~= bytes);
    } else {
        assert(bytes =~= Seq::empty());
    }
}

/// A segment without `%` decodes to itself.
pub proof fn law_unescaped_segments_decode_to_themselves(raw: Seq<char>)
    requires
        !raw.contains('%'),
    ensures
        percent_decoded(raw) == Some(raw),
{
    lemma_percent_free(raw);
    lemma_unescape_identity(encode_utf8(raw));
    encode_utf8_valid_utf8(raw);
    encode_utf8_decode_utf8(raw);
}

/// Unescaping goes on after bytes that unescape.
pub proof fn lemma_unescape_joined(a: Seq<u8>, b: Seq<u8>)
    requires
        unescape(a) is Some,
    ensures
        unescape(a + b) == match unescape(b) {
            Some(rest) => Some(unescape(a)->0 + rest),
            None => None,
        },
    decreases a.len(),
{
    if a.len() == 0 {
        assert(a + b =~= b);
        if let Some(rest) = unescape(b) {
            assert(unescape(a)->0 + rest =~= rest);
        }
    } else {
        let n: int = if a[0] == 0x25 {
            3
        } else {
            1
        };
        assert((a + b).skip(n) =~= a.skip(n) + b);
        lemma_unescape_joined(a.skip(n), b);
        if let Some(rest) = unescape(b) {
            let first = unescape(a)->0.take(1);
            assert(unescape(a)->0 =~= first + unescape(a.skip(n))->0);
            assert(unescape(a + b)->0 =~= unescape(a)->0 + rest);
        }
    }
}

/// Joined texts that decode decode to what they decode to, joined.
pub proof fn law_joined_texts_decode_jointly(a: Seq<char>, b: Seq<char>)
    requires
        percent_decoded(a) is Some,
        percent_decoded(b) is Some,
    ensures
        percent_decoded(a + b) == Some(percent_decoded(a)->0 + percent_decoded(b)->0),
{
    let x = percent_decoded(a)->0;
    let y = percent_decoded(b)->0;
    lemma_encode_concat(a, b);
    lemma_unescape_joined(encode_utf8(a), encode_utf8(b));
    decode_utf8_encode_utf8(unescape(encode_utf8(a))->0);
    decode_utf8_encode_utf8(unescape(encode_utf8(b))->0);
    lemma_encode_concat(x, y);
    encode_utf8_valid_utf8(x + y);
    encode_utf8_decode_utf8(x + y);
}

/// Whether `c` is a hexadecimal digit of the value `v`.
pub open spec fn hex_digit(c: char, v: int) -> bool {
    ||| '0' <= c <= '9' && v == c as int - '0' as int
    ||| 'a' <= c <= 'f' && v == c as int - 'a' as int + 10
    ||| 'A' <= c <= 'F' && v == c as int - 'A' as int + 10
}

/// Whether `raw` is `bytes`, every one escaped, with digits of either case.
pub open spec fn all_escaped(raw: Seq<char>, bytes: Seq<u8>) -> bool
    decreases bytes.len(),
{
    if bytes.len() == 0 {
        raw.len() == 0
    } else {
        &&& raw.len() >= 3
        &&& raw[0] == '%'
        &&& hex_digit(raw[1], bytes[0] as int / 16)
        &&& hex_digit(raw[2], bytes[0] as int % 16)
        &&& all_escaped(raw.skip(3), bytes.skip(1))
    }
}

/// A hexadecimal digit is written as one byte, which has its value.
pub proof fn lemma_hex_digit(c: char, v: int)
    requires
        hex_digit(c, v),
    ensures
        encode_scalar(c as u32) == seq![c as u8],
        hex_value(c as u8) == Some(v as u8),
        0 <= v < 16,
{
    let s = c as u32;
    assert(0x20 <= s <= 0x7e ==> has_width_1_encoding(s) && leading_byte_width_1(s) == s)
        by (bit_vector);
    assert(encode_scalar(s) =~= seq![c as u8]);
}

/// Escaped bytes unescape to the bytes.
pub proof fn lemma_all_escaped(raw: Seq<char>, bytes: Seq<u8>)
    requires
        all_escaped(raw, bytes),
    ensures
        unescape(encode_utf8(raw)) == Some(bytes),
    decreases bytes.len(),
{
    if bytes.len() == 0 {
        assert(encode_utf8(raw) =~= Seq::empty());
        assert(bytes =~= Seq::empty());
    } else {
        let rest = raw.skip(3);
        lemma_all_escaped(rest, bytes.skip(1));
        lemma_hex_digit(raw[1], bytes[0] as int / 16);
        lemma_hex_digit(raw[2], bytes[0] as int % 16);
        let s = '%' as u32;
        assert(s == 0x25 ==> has_width_1_encoding(s) && leading_byte_width_1(s) == 0x25)
            by (bit_vector);
        assert(encode_scalar(s) =~= seq![0x25u8]);
        let two = raw.drop_first();
        let three = two.drop_first();
        assert(three.drop_first() =~= rest);
        let lead = seq![0x25u8, raw[1] as u8, raw[2] as u8];
        assert(encode_utf8(three) =~= seq![raw[2] as u8] + encode_utf8(rest));
        assert(encode_utf8(two) =~= seq![raw[1] as u8] + encode_utf8(three));
        assert(encode_utf8(raw) =~= lead + encode_utf8(rest));
        assert(encode_utf8(raw).skip(3) =~= encode_utf8(rest));
        assert(seq![bytes[0]] + bytes.skip(1) =~= bytes);
    }
}

/// A text with every byte of its encoding escaped decodes to the text.
pub proof fn law_escaped_texts_decode_to_the_text(raw: Seq<char>, text: Seq<char>)
    requires
        all_escaped(raw, encode_utf8(text)),
    ensures
        percent_decoded(raw) == Some(text),
{
    lemma_all_escaped(raw, encode_utf8(text));
    encode_utf8_valid_utf8(text);
    encode_utf8_decode_utf8(text);
}

/// The hexadecimal digit of the value `v`.
pub open spec fn digit_of(v: int) -> char {
    if v < 10 {
        ('0' as int + v) as char
    } else {
        ('A' as int + (v - 10)) as char
    }
}

/// `bytes`, every one escaped.
pub open spec fn escaped(bytes: Seq<u8>) -> Seq<char>
    decreases bytes.len(),
{
    if bytes.len() == 0 {
        Seq::empty()
    } else {
        seq!['%', digit_of(bytes[0] as int / 16), digit_of(bytes[0] as int % 16)] + escaped(
            bytes.skip(1),
        )
    }
}

/// Escaping every byte leaves nothing else.
proof fn lemma_escaped(bytes: Seq<u8>)
    ensures
        all_escaped(escaped(bytes), bytes),
    decreases bytes.len(),
{
    if bytes.len() > 0 {
        lemma_escaped(bytes.skip(1));
        assert(escaped(bytes).skip(3) =~= escaped(bytes.skip(1)));
    }
}

/// Decoding undoes the escaping of every byte of a text.
pub proof fn law_escaping_is_undone(text: Seq<char>)
    ensures
        percent_decoded(escaped(encode_utf8(text))) == Some(text),
{
    lemma_escaped(encode_utf8(text));
    law_escaped_texts_decode_to_the_text(escaped(encode_utf8(text)), text);
}

/// A segment that begins with an ASCII character other than `%` decodes to one that
/// begins with it.
pub proof fn lemma_decoded_lead(raw: Seq<char>, c: char)
    requires
        raw.len() > 0,
        raw[0] == c,
        ' ' <= c <= '~',
        c != '%',
        percent_decoded(raw) is Some,
    ensures
        percent_decoded(raw)->0.len() > 0,
        percent_decoded(raw)->0[0] == c,
{
    let bytes = encode_utf8(raw);
    let s = c as u32;
    assert(0x20 <= s <= 0x7e ==> has_width_1_encoding(s) && leading_byte_width_1(s) == s)
        by (bit_vector);
    assert(bytes[0] == c as u8);
    let out = unescape(bytes)->0;
    assert(out[0] == bytes[0]);
    let text = decode_utf8(out);
    decode_utf8_encode_utf8(out);
    assert(encode_utf8(text) == out);
    assert(text.len() > 0);
    lemma_lead_byte(text[0], c);
}

/// A character whose encoding begins with an ASCII byte is that character.
proof fn lemma_lead_byte(d: char, c: char)
    requires
        ' ' <= c <= '~',
        encode_scalar(d as u32)[0] == c as u8,
    ensures
        d == c,
{
    let s = d as u32;
    let b = c as u8;
    assert(leading_byte_width_2(s) >= 0xc0 && leading_byte_width_3(s) >= 0xe0
        && leading_byte_width_4(s) >= 0xf0) by (bit_vector);
    assert(has_width_1_encoding(s) ==> leading_byte_width_1(s) == s) by (bit_vector);
}

/// Without escapes, the remainder of a split is the end of the request path,
/// character by character: doubled and trailing slashes are all there.
pub proof fn law_path_info_is_verbatim(url: Seq<char>)
    requires
        php_split(url) is Some,
        !path_part(url).contains('%'),
    ensures
        (php_split(url)->0).1.is_suffix_of(path_part(url)),
{
    let path = path_part(url);
    let raws = split(path, '/');
    let k = php_index(raws, 0)->0;
    lemma_php_index(raws, 0);
    lemma_join_split(path, '/');
    assert forall|i: int| 0 <= i < raws.len() implies !(#[trigger] raws[i]).contains('%') by {
        lemma_join_holds(raws, '/', i, '%');
    }
    assert(raws.take(raws.len() as int) =~= raws);
    assert(raws.skip(k + 1).take(raws.len() - (k + 1)) =~= raws.skip(k + 1));
    lemma_verbatim(raws, k + 1, raws.len() as int);
    let head = join(raws.take(k + 1), '/');
    let info = path_info_of(raws.skip(k + 1))->0;
    assert((head + info).skip(head.len() as int) =~= info);
}

/// Joined raw segments are the head followed by the remainder.
proof fn lemma_verbatim(raws: Seq<Seq<char>>, m: int, n: int)
    requires
        0 < m <= n <= raws.len(),
        forall|i: int| 0 <= i < raws.len() ==> !(#[trigger] raws[i]).contains('%'),
        path_info_of(raws.skip(m).take(n - m)) is Some,
    ensures
        join(raws.take(n), '/') == join(raws.take(m), '/') + path_info_of(
            raws.skip(m).take(n - m),
        )->0,
    decreases n - m,
{
    let rest = raws.skip(m).take(n - m);
    if m == n {
        assert(path_info_of(rest)->0 =~= Seq::empty());
        assert(join(raws.take(m), '/') + Seq::<char>::empty() =~= join(raws.take(m), '/'));
    } else {
        let shorter = raws.skip(m).take(n - 1 - m);
        assert(rest.drop_last() =~= shorter);
        assert(rest.last() == raws[n - 1]);
        law_unescaped_segments_decode_to_themselves(raws[n - 1]);
        lemma_verbatim(raws, m, n - 1);
        assert(raws.take(n).drop_last() =~= raws.take(n - 1));
        let a = join(raws.take(m), '/');
        let b = path_info_of(shorter)->0;
        assert((a + b).push('/') + raws[n - 1] =~= a + (b.push('/') + raws[n - 1]));
    }
}

} // verus!
