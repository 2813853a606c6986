//! The responses that the proxy makes itself. Each carries `Server: yerd`, by which a
//! probe can tell that a connection reached this proxy and no other listener.

use vstd::prelude::*;
use vstd::slice::slice_to_vec;
use vstd::utf8::{encode_utf8, is_ascii_chars, is_ascii_chars_encode_utf8};

use crate::error::ProxyError;
use crate::headers::{
    header_append, header_groups, header_map_new, lemma_group_index, lemma_group_index_is,
    lemma_token, valid_name, valid_value, values_of, SAFE_NAMES,
};
use crate::redirect::{
    build_redirect_uri, directory_location, directory_redirect_location, redirect_uri,
};
use crate::text::lower;
use crate::unbound::{build_clear_cookie, build_set_cookie, set_cookie};

verus! {

/// What the proxy calls itself in `Server`.
pub const PROXY_SERVER_ID: &'static str = "yerd";

/// A response: its status, its header fields, and a body.
#[derive(Debug)]
pub struct Response<B> {
    /// The status code.
    pub status: u16,
    /// The header fields.
    pub headers: http::HeaderMap<http::HeaderValue>,
    /// The body.
    pub body: B,
}

/// A header with one textual value.
pub open spec fn field(name: Seq<char>, value: Seq<char>) -> (Seq<char>, Seq<Seq<u8>>) {
    (name, seq![encode_utf8(value)])
}

/// The fields of a plain text reply.
pub open spec fn plain_fields() -> Seq<(Seq<char>, Seq<Seq<u8>>)> {
    seq![
        field("server"@, "yerd"@),
        field("content-type"@, "text/plain; charset=utf-8"@),
    ]
}

/// The fields of the reply to a method that is not allowed.
pub open spec fn method_fields() -> Seq<(Seq<char>, Seq<Seq<u8>>)> {
    seq![
        field("server"@, "yerd"@),
        field("allow"@, "GET, HEAD"@),
        field("cache-control"@, "no-store"@),
        field("content-type"@, "text/plain; charset=utf-8"@),
    ]
}

/// The fields of a redirect that sets the pin cookie.
pub open spec fn pin_fields(location: Seq<char>, cookie: Seq<char>) -> Seq<
    (Seq<char>, Seq<Seq<u8>>),
> {
    seq![
        field("location"@, location),
        field("set-cookie"@, cookie),
        field("cache-control"@, "no-store"@),
        field("server"@, "yerd"@),
    ]
}

/// The fields of a reply that is not to be cached, and that drops the pin where
/// `clear` says so.
pub open spec fn uncached_fields(content_type: Seq<char>, clear: bool) -> Seq<
    (Seq<char>, Seq<Seq<u8>>),
> {
    let base = seq![
        field("server"@, "yerd"@),
        field("cache-control"@, "no-store"@),
        field("content-type"@, content_type),
    ];
    if clear {
        base.push(field("set-cookie"@, "yerd-site=; Path=/; Max-Age=0; SameSite=Lax"@))
    } else {
        base
    }
}

/// The fields of a permanent redirect.
pub open spec fn moved_fields(location: Seq<char>, no_store: bool) -> Seq<
    (Seq<char>, Seq<Seq<u8>>),
> {
    let base = seq![field("location"@, location), field("server"@, "yerd"@)];
    if no_store {
        base.push(field("cache-control"@, "no-store"@))
    } else {
        base
    }
}

/// Whether `r` is this reply.
pub open spec fn is_reply(
    r: Response<Vec<u8>>,
    status: u16,
    fields: Seq<(Seq<char>, Seq<Seq<u8>>)>,
    body: Seq<char>,
) -> bool {
    &&& r.status == status
    &&& header_groups(r.headers) == fields
    &&& r.body@ == encode_utf8(body)
}

/// Whether `r` is the permanent redirect to `location`; one that no header can hold is
/// an error.
pub open spec fn is_moved(
    r: Result<Response<Vec<u8>>, ProxyError>,
    location: Seq<char>,
    no_store: bool,
) -> bool {
    if valid_text(location) {
        r is Ok && is_reply(r->Ok_0, 301, moved_fields(location, no_store), Seq::empty())
    } else {
        protocol_error(r, "invalid redirect URI"@)
    }
}

/// Whether `r` is the redirect to `location` that pins the site `name`; a location or
/// a cookie that no header can hold is an error.
pub open spec fn is_switch(
    r: Result<Response<Vec<u8>>, ProxyError>,
    name: Seq<char>,
    location: Seq<char>,
) -> bool {
    if !valid_text(location) {
        protocol_error(r, "invalid switch location"@)
    } else if !valid_text(set_cookie(name)) {
        protocol_error(r, "invalid pin cookie"@)
    } else {
        r is Ok && is_reply(r->Ok_0, 303, pin_fields(location, set_cookie(name)), Seq::empty())
    }
}

/// Text that can be a header value.
pub open spec fn valid_text(value: Seq<char>) -> bool {
    valid_value(encode_utf8(value))
}

/// Printable ASCII makes a header value.
proof fn lemma_printable(value: Seq<char>)
    requires
        forall|i: int| 0 <= i < value.len() ==> ' ' <= (#[trigger] value[i]) <= '~',
    ensures
        valid_text(value),
{
    assert(is_ascii_chars(value));
    is_ascii_chars_encode_utf8(value);
    assert forall|i: int| 0 <= i < encode_utf8(value).len() implies (#[trigger] encode_utf8(
        value,
    )[i]) >= 0x20 && encode_utf8(value)[i] != 0x7f by {
        assert(' ' <= value[i] <= '~');
    }
}

/// The names that the replies use are header names, all different, in lower case.
pub proof fn lemma_reply_names()
    ensures
        valid_name("server"@) && lower("server"@) == "server"@ && "server"@.len() == 6,
        valid_name("location"@) && lower("location"@) == "location"@ && "location"@.len() == 8,
        valid_name("set-cookie"@) && lower("set-cookie"@) == "set-cookie"@ && "set-cookie"@.len()
            == 10,
        valid_name("cache-control"@) && lower("cache-control"@) == "cache-control"@
            && "cache-control"@.len() == 13,
        valid_name("content-type"@) && lower("content-type"@) == "content-type"@
            && "content-type"@.len() == 12,
        valid_name("allow"@) && lower("allow"@) == "allow"@ && "allow"@.len() == 5,
{
    reveal_strlit("server");
    reveal_strlit("location");
    reveal_strlit("set-cookie");
    reveal_strlit("cache-control");
    reveal_strlit("content-type");
    reveal_strlit("allow");
    lemma_token("server"@);
    lemma_token("location"@);
    lemma_token("set-cookie"@);
    lemma_token("cache-control"@);
    lemma_token("content-type"@);
    lemma_token("allow"@);
    assert(lower("server"@) =~= "server"@);
    assert(lower("location"@) =~= "location"@);
    assert(lower("set-cookie"@) =~= "set-cookie"@);
    assert(lower("cache-control"@) =~= "cache-control"@);
    assert(lower("content-type"@) =~= "content-type"@);
    assert(lower("allow"@) =~= "allow"@);
}

/// The fixed values that the replies use are header values.
proof fn lemma_reply_values()
    ensures
        valid_text("yerd"@),
        valid_text("/"@),
        valid_text("no-store"@),
        valid_text("text/plain; charset=utf-8"@),
        valid_text("text/html; charset=utf-8"@),
        valid_text("GET, HEAD"@),
        valid_text("yerd-site=; Path=/; Max-Age=0; SameSite=Lax"@),
{
    reveal_strlit("yerd");
    reveal_strlit("/");
    reveal_strlit("no-store");
    reveal_strlit("text/plain; charset=utf-8");
    reveal_strlit("text/html; charset=utf-8");
    reveal_strlit("GET, HEAD");
    reveal_strlit("yerd-site=; Path=/; Max-Age=0; SameSite=Lax");
    lemma_printable("yerd"@);
    lemma_printable("/"@);
    lemma_printable("no-store"@);
    lemma_printable("text/plain; charset=utf-8"@);
    lemma_printable("text/html; charset=utf-8"@);
    lemma_printable("GET, HEAD"@);
    lemma_printable("yerd-site=; Path=/; Max-Age=0; SameSite=Lax"@);
}

/// Add a field that is not there yet. A value that cannot stand in a header is not
/// added.
fn put(map: &mut http::HeaderMap<http::HeaderValue>, name: &str, value: &str) -> (done: bool)
    requires
        valid_name(name@),
        lower(name@) == name@,
        header_groups(*old(map)).len() <= SAFE_NAMES,
        forall|i: int|
            0 <= i < header_groups(*old(map)).len() ==> (#[trigger] header_groups(*old(map))[i]).0
                != name@,
    ensures
        done == valid_text(value@),
        done ==> header_groups(*final(map)) == header_groups(*old(map)).push(field(name@, value@)),
        !done ==> header_groups(*final(map)) == header_groups(*old(map)),
{
    proof {
        lemma_group_index(header_groups(*map), name@);
    }
    header_append(map, name, value.as_bytes())
}

/// An empty body.
fn no_body() -> (r: Vec<u8>)
    ensures
        r@ == encode_utf8(Seq::empty()),
{
    let r: Vec<u8> = Vec::new();
    assert(r@ =~= encode_utf8(Seq::empty()));
    r
}

/// The error of a response that cannot be built.
pub fn synthetic_error(msg: &str) -> (e: ProxyError)
    ensures
        e is BackendProtocol,
        e->BackendProtocol_source@ == msg@,
{
    ProxyError::BackendProtocol { source: msg.to_owned() }
}

/// Whether `r` fails with a broken exchange for the reason `msg`.
pub open spec fn protocol_error<T>(r: Result<T, ProxyError>, msg: Seq<char>) -> bool {
    r is Err && r->Err_0 is BackendProtocol && r->Err_0->BackendProtocol_source@ == msg
}

/// The value of `Server`.
pub fn server_header() -> (r: &'static str)
    ensures
        r@ == "yerd"@,
{
    PROXY_SERVER_ID
}

/// A plain text reply with the status `status`.
fn plain_reply(status: u16, body: &str) -> (r: Response<Vec<u8>>)
    ensures
        is_reply(r, status, plain_fields(), body@),
{
    proof {
        lemma_reply_names();
        lemma_reply_values();
    }
    let mut headers: http::HeaderMap<http::HeaderValue> = header_map_new();
    put(&mut headers, "server", server_header());
    put(&mut headers, "content-type", "text/plain; charset=utf-8");
    assert(header_groups(headers) =~= plain_fields());
    Response { status, headers, body: slice_to_vec(body.as_bytes()) }
}

/// `400`: the request names no host.
pub fn bad_request_response() -> (r: Response<Vec<u8>>)
    ensures
        is_reply(r, 400, plain_fields(), "Missing or invalid Host header.\n"@),
{
    plain_reply(400, "Missing or invalid Host header.\n")
}

/// `404`: no site answers to the host.
pub fn not_found_response() -> (r: Response<Vec<u8>>)
    ensures
        is_reply(r, 404, plain_fields(), "No site matches this Host.\n"@),
{
    plain_reply(404, "No site matches this Host.\n")
}

/// `500`: the request could not be proxied.
pub fn internal_error_response() -> (r: Response<Vec<u8>>)
    ensures
        is_reply(r, 500, plain_fields(), "Proxy internal error.\n"@),
{
    plain_reply(500, "Proxy internal error.\n")
}

/// `501`: a FastCGI backend has no byte stream to upgrade to.
pub fn upgrade_not_supported() -> (r: Response<Vec<u8>>)
    ensures
        is_reply(r, 501, plain_fields(), "WebSocket upgrade not supported on FastCGI backends.\n"@),
{
    plain_reply(501, "WebSocket upgrade not supported on FastCGI backends.\n")
}

/// `405`: a static routing target answers `GET` and `HEAD` only.
pub fn method_not_allowed_response() -> (r: Response<Vec<u8>>)
    ensures
        is_reply(
            r,
            405,
            method_fields(),
            "405 Method Not Allowed\n\nThis path is served by a static routing rule target, which only answers GET and HEAD.\n"@,
        ),
{
    proof {
        lemma_reply_names();
        lemma_reply_values();
    }
    let mut headers: http::HeaderMap<http::HeaderValue> = header_map_new();
    put(&mut headers, "server", server_header());
    put(&mut headers, "allow", "GET, HEAD");
    put(&mut headers, "cache-control", "no-store");
    put(&mut headers, "content-type", "text/plain; charset=utf-8");
    assert(header_groups(headers) =~= method_fields());
    let body: &str = "405 Method Not Allowed\n\nThis path is served by a static routing rule target, which only answers GET and HEAD.\n";
    Response { status: 405, headers, body: slice_to_vec(body.as_bytes()) }
}

/// `303` to `location`, which pins the site `name`.
pub fn switch_response(name: &str, location: &str) -> (r: Result<Response<Vec<u8>>, ProxyError>)
    ensures
        is_switch(r, name@, location@),
{
    proof {
        lemma_reply_names();
        lemma_reply_values();
    }
    let cookie: String = build_set_cookie(name);
    let mut headers: http::HeaderMap<http::HeaderValue> = header_map_new();
    if !put(&mut headers, "location", location) {
        return Err(synthetic_error("invalid switch location"));
    }
    if !put(&mut headers, "set-cookie", cookie.as_str()) {
        return Err(synthetic_error("invalid pin cookie"));
    }
    put(&mut headers, "cache-control", "no-store");
    put(&mut headers, "server", server_header());
    assert(header_groups(headers) =~= pin_fields(location@, set_cookie(name@)));
    Ok(Response { status: 303, headers, body: no_body() })
}

/// `303` to `/`, which drops the pin.
pub fn clear_response() -> (r: Result<Response<Vec<u8>>, ProxyError>)
    ensures
        r is Ok,
        is_reply(
            r->Ok_0,
            303,
            pin_fields("/"@, "yerd-site=; Path=/; Max-Age=0; SameSite=Lax"@),
            Seq::empty(),
        ),
{
    proof {
        lemma_reply_names();
        lemma_reply_values();
    }
    let cookie: String = build_clear_cookie();
    let mut headers: http::HeaderMap<http::HeaderValue> = header_map_new();
    put(&mut headers, "location", "/");
    put(&mut headers, "set-cookie", cookie.as_str());
    put(&mut headers, "cache-control", "no-store");
    put(&mut headers, "server", server_header());
    assert(header_groups(headers) =~= pin_fields(
        "/"@,
        "yerd-site=; Path=/; Max-Age=0; SameSite=Lax"@,
    ));
    Ok(Response { status: 303, headers, body: no_body() })
}

/// The header fields of a reply that is not to be cached.
fn uncached_headers(content_type: &str, clear: bool) -> (headers: http::HeaderMap<
    http::HeaderValue,
>)
    requires
        valid_text(content_type@),
    ensures
        header_groups(headers) == uncached_fields(content_type@, clear),
{
    proof {
        lemma_reply_names();
        lemma_reply_values();
    }
    let mut headers: http::HeaderMap<http::HeaderValue> = header_map_new();
    put(&mut headers, "server", server_header());
    put(&mut headers, "cache-control", "no-store");
    put(&mut headers, "content-type", content_type);
    if clear {
        let cookie: String = build_clear_cookie();
        put(&mut headers, "set-cookie", cookie.as_str());
    }
    assert(header_groups(headers) =~= uncached_fields(content_type@, clear));
    headers
}

/// Whether `r` is the page to pick a site from.
pub open spec fn is_picker_page(
    r: Result<Response<Vec<u8>>, ProxyError>,
    html: Seq<char>,
    clear: bool,
) -> bool {
    r is Ok && is_reply(r->Ok_0, 200, uncached_fields("text/html; charset=utf-8"@, clear), html)
}

/// `200` with the page to pick a site from.
pub fn picker_response(body_html: &str, clear: bool) -> (r: Result<Response<Vec<u8>>, ProxyError>)
    ensures
        is_picker_page(r, body_html@, clear),
{
    proof {
        lemma_reply_values();
    }
    let headers: http::HeaderMap<http::HeaderValue> = uncached_headers(
        "text/html; charset=utf-8",
        clear,
    );
    Ok(Response { status: 200, headers, body: slice_to_vec(body_html.as_bytes()) })
}

/// `404` for a loopback request. It is never to be cached: the same URL serves
/// another site once one is pinned.
pub fn unbound_not_found(clear: bool) -> (r: Result<Response<Vec<u8>>, ProxyError>)
    ensures
        r is Ok,
        is_reply(
            r->Ok_0,
            404,
            uncached_fields("text/plain; charset=utf-8"@, clear),
            "No site matches this Host.\n"@,
        ),
{
    proof {
        lemma_reply_values();
    }
    let headers: http::HeaderMap<http::HeaderValue> = uncached_headers(
        "text/plain; charset=utf-8",
        clear,
    );
    let body: &str = "No site matches this Host.\n";
    Ok(Response { status: 404, headers, body: slice_to_vec(body.as_bytes()) })
}

/// A `301` without a body to `location`, not to be cached where `no_store` says so.
fn moved(location: &str, no_store: bool) -> (r: Result<Response<Vec<u8>>, ProxyError>)
    ensures
        is_moved(r, location@, no_store),
{
    proof {
        lemma_reply_names();
        lemma_reply_values();
    }
    let mut headers: http::HeaderMap<http::HeaderValue> = header_map_new();
    if !put(&mut headers, "location", location) {
        return Err(synthetic_error("invalid redirect URI"));
    }
    put(&mut headers, "server", server_header());
    if no_store {
        put(&mut headers, "cache-control", "no-store");
    }
    assert(header_groups(headers) =~= moved_fields(location@, no_store));
    Ok(Response { status: 301, headers, body: no_body() })
}

/// A `301` without a body to `location`.
pub fn moved_permanently(location: &str) -> (r: Result<Response<Vec<u8>>, ProxyError>)
    ensures
        is_moved(r, location@, false),
{
    moved(location, false)
}

/// `301` to the HTTPS form of a request.
pub fn https_redirect(host: &str, path_and_query: &str, port: u16) -> (r: Result<
    Response<Vec<u8>>,
    ProxyError,
>)
    ensures
        is_moved(r, redirect_uri(host@, path_and_query@, port), false),
{
    moved_permanently(build_redirect_uri(host, path_and_query, port).as_str())
}

/// `301` to the trailing-slash form of a request that names a directory. It is not to
/// be cached: a browser would keep it for longer than the directory lasts, and the
/// location may carry a login token.
pub fn trailing_slash_redirect(path_and_query: &str) -> (r: Result<Response<Vec<u8>>, ProxyError>)
    ensures
        is_moved(r, directory_location(path_and_query@), true),
{
    moved(directory_redirect_location(path_and_query).as_str(), true)
}

/// Every reply that the proxy makes itself names the proxy, and those whose truth
/// depends on the pin, on the file system or on a rule are never cached.
pub proof fn law_replies_name_the_proxy(
    location: Seq<char>,
    cookie: Seq<char>,
    content_type: Seq<char>,
    clear: bool,
    no_store: bool,
)
    ensures
        values_of(plain_fields(), "server"@) == seq![encode_utf8("yerd"@)],
        values_of(method_fields(), "server"@) == seq![encode_utf8("yerd"@)],
        values_of(pin_fields(location, cookie), "server"@) == seq![encode_utf8("yerd"@)],
        values_of(uncached_fields(content_type, clear), "server"@) == seq![encode_utf8("yerd"@)],
        values_of(moved_fields(location, no_store), "server"@) == seq![encode_utf8("yerd"@)],
        values_of(method_fields(), "cache-control"@) == seq![encode_utf8("no-store"@)],
        values_of(pin_fields(location, cookie), "cache-control"@) == seq![encode_utf8("no-store"@)],
        values_of(uncached_fields(content_type, clear), "cache-control"@) == seq![
            encode_utf8("no-store"@),
        ],
        values_of(moved_fields(location, true), "cache-control"@) == seq![encode_utf8("no-store"@)],
{
    lemma_reply_names();
    lemma_group_index_is(plain_fields(), 0);
    lemma_group_index_is(method_fields(), 0);
    lemma_group_index_is(method_fields(), 2);
    lemma_group_index_is(pin_fields(location, cookie), 2);
    lemma_group_index_is(pin_fields(location, cookie), 3);
    lemma_group_index_is(uncached_fields(content_type, clear), 0);
    lemma_group_index_is(uncached_fields(content_type, clear), 1);
    lemma_group_index_is(moved_fields(location, no_store), 1);
    lemma_group_index_is(moved_fields(location, true), 2);
}

} // verus!
