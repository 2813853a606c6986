//! The CGI parameters of one FastCGI request.
//!
//! The policy is a `try_files` front controller. The caller resolves the request
//! path against the file system first: an exact `.php` match (`/wp-login.php`), or a
//! directory's own `index.php` (`/wp-admin/`). A script that it finds comes in as
//! `script_rel`, and the parameters then hold
//!
//! - `SCRIPT_FILENAME`: the document root joined with `script_rel`,
//! - `SCRIPT_NAME`: `/` followed by `script_rel`.
//!
//! Without one, everything goes to the root `index.php`.
//!
//! `PATH_INFO` is the whole request path, unless the request was split at its script
//! (`/styles.php/extra`): then it is the remainder of the split.
//!
//! `SERVER_SOFTWARE` names nginx, because frameworks look for a server there that is
//! known to route through a front controller, and this one does as nginx would. It
//! is no part of what a client sees.

use vstd::prelude::*;
use vstd::slice::slice_to_vec;
use vstd::utf8::{
    encode_utf8, encode_utf8_decode_utf8, is_ascii_chars, is_ascii_chars_encode_utf8,
};

use crate::headers::{
    field_views, fields_of, header_fields, header_get, header_groups, is_visible, lemma_lookup, lookup_key, values_of,
    visible,
};
use crate::text::{
    concat, decimal, decimal_str, join_path, joined, lemma_split_first, replace_char, replaced,
    split, str_eq,
};
use crate::try_files::{
    law_candidates_stay_below_the_root, path_part, safe_segment, static_path,
};

verus! {

/// One end of a connection: the textual form of its IP address, and its port.
#[derive(Debug)]
pub struct SocketAddr {
    /// The IP address, as text.
    pub ip: String,
    /// The port.
    pub port: u16,
}

/// What a one-click login adds to the one request that spent a valid login token.
#[derive(Debug, Clone, Copy)]
pub struct AutoLoginParams<'a> {
    /// Path of the `auto_prepend_file` bootstrap script.
    pub prepend_script: &'a str,
    /// The user to sign in as, or `""` for no preference.
    pub target_user: &'a str,
}

/// The views of owned parameters.
pub open spec fn param_views(v: Seq<(Vec<u8>, Vec<u8>)>) -> Seq<(Seq<u8>, Seq<u8>)> {
    v.map_values(|p: (Vec<u8>, Vec<u8>)| (p.0@, p.1@))
}

/// A parameter whose name and value are text.
pub open spec fn pair(name: Seq<char>, value: Seq<char>) -> (Seq<u8>, Seq<u8>) {
    (encode_utf8(name), encode_utf8(value))
}

/// `target` from the character after its first `?` on.
pub open spec fn query_part(target: Seq<char>) -> Seq<char> {
    let path = path_part(target);
    if path.len() < target.len() {
        target.skip(path.len() as int + 1)
    } else {
        Seq::empty()
    }
}

/// The path of the script, relative to the document root.
pub open spec fn script_path(script_rel: Option<Seq<char>>) -> Seq<char> {
    match script_rel {
        Some(rel) => rel,
        None => "index.php"@,
    }
}

/// The parameters that every request has.
pub open spec fn request_params(
    method: Seq<char>,
    target: Seq<char>,
    document_root: Seq<char>,
    script_rel: Option<Seq<char>>,
    path_info: Option<Seq<char>>,
) -> Seq<(Seq<u8>, Seq<u8>)> {
    seq![
        pair("GATEWAY_INTERFACE"@, "CGI/1.1"@),
        pair("SERVER_PROTOCOL"@, "HTTP/1.1"@),
        pair("REQUEST_METHOD"@, method),
        pair("REQUEST_URI"@, target),
        pair("QUERY_STRING"@, query_part(target)),
        pair("SCRIPT_NAME"@, "/"@ + replaced(script_path(script_rel), '\\', '/')),
        pair("SCRIPT_FILENAME"@, joined(document_root, script_path(script_rel))),
        pair("DOCUMENT_ROOT"@, document_root),
        pair(
            "PATH_INFO"@,
            match path_info {
                Some(info) => info,
                None => path_part(target),
            },
        ),
    ]
}

/// The parameters that describe the connection.
pub open spec fn connection_params(remote: SocketAddr, server: SocketAddr, https: bool) -> Seq<
    (Seq<u8>, Seq<u8>),
> {
    let base = seq![
        pair("REMOTE_ADDR"@, remote.ip@),
        pair("REMOTE_PORT"@, decimal(remote.port as nat)),
        pair("SERVER_ADDR"@, server.ip@),
        pair("SERVER_PORT"@, decimal(server.port as nat)),
        pair("SERVER_SOFTWARE"@, "yerd (nginx-compatible)"@),
    ];
    if https {
        base.push(pair("HTTPS"@, "on"@))
    } else {
        base
    }
}

/// The parameters of a one-click login.
pub open spec fn login_params(auto_login: Option<AutoLoginParams>) -> Seq<(Seq<u8>, Seq<u8>)> {
    match auto_login {
        Some(login) => seq![
            pair("PHP_VALUE"@, "auto_prepend_file="@ + login.prepend_script@),
            pair("YERD_LOGIN_USER"@, login.target_user@),
        ],
        None => Seq::empty(),
    }
}

/// The first value under the header `name`, where it is visible, once for each of
/// `keys`.
pub open spec fn entity_params(
    groups: Seq<(Seq<char>, Seq<Seq<u8>>)>,
    name: Seq<char>,
    keys: Seq<Seq<char>>,
) -> Seq<(Seq<u8>, Seq<u8>)> {
    let values = values_of(groups, name);
    if values.len() > 0 && visible(values[0]) {
        keys.map_values(|key: Seq<char>| (encode_utf8(key), values[0]))
    } else {
        Seq::empty()
    }
}

/// A byte of a header name as it stands in a parameter name.
pub open spec fn env_byte(b: u8) -> u8 {
    if b == 0x2d {
        0x5f
    } else if 0x61 <= b <= 0x7a {
        (b - 32) as u8
    } else {
        b
    }
}

/// The parameter name of the header `name`.
pub open spec fn env_name(name: Seq<char>) -> Seq<u8> {
    encode_utf8("HTTP_"@) + encode_utf8(name).map_values(|b: u8| env_byte(b))
}

/// A header that has a parameter of its own.
pub open spec fn entity_header(name: Seq<char>) -> bool {
    name == "host"@ || name == "content-type"@ || name == "content-length"@
}

/// The parameters of all other headers.
pub open spec fn header_params(fields: Seq<(Seq<char>, Seq<u8>)>) -> Seq<(Seq<u8>, Seq<u8>)>
    decreases fields.len(),
{
    if fields.len() == 0 {
        Seq::empty()
    } else if entity_header(fields.last().0) {
        header_params(fields.drop_last())
    } else {
        header_params(fields.drop_last()).push((env_name(fields.last().0), fields.last().1))
    }
}

/// All parameters of a request, in order.
pub open spec fn params(
    method: Seq<char>,
    target: Seq<char>,
    groups: Seq<(Seq<char>, Seq<Seq<u8>>)>,
    document_root: Seq<char>,
    script_rel: Option<Seq<char>>,
    path_info: Option<Seq<char>>,
    https: bool,
    remote: SocketAddr,
    server: SocketAddr,
    auto_login: Option<AutoLoginParams>,
) -> Seq<(Seq<u8>, Seq<u8>)> {
    request_params(method, target, document_root, script_rel, path_info) + connection_params(
        remote,
        server,
        https,
    ) + login_params(auto_login) + entity_params(groups, "host"@, seq!["SERVER_NAME"@, "HTTP_HOST"@])
        + entity_params(groups, "content-type"@, seq!["CONTENT_TYPE"@]) + entity_params(
        groups,
        "content-length"@,
        seq!["CONTENT_LENGTH"@],
    ) + header_params(fields_of(groups))
}

/// The view of an optional string slice.
pub open spec fn opt_view(s: Option<&str>) -> Option<Seq<char>> {
    match s {
        Some(s) => Some(s@),
        None => None,
    }
}

/// Add one parameter.
fn push(out: &mut Vec<(Vec<u8>, Vec<u8>)>, name: &[u8], value: &[u8])
    ensures
        param_views(final(out)@) == param_views(old(out)@).push((name@, value@)),
{
    let ghost before = param_views(out@);
    out.push((slice_to_vec(name), slice_to_vec(value)));
    assert(param_views(out@) =~= before.push((name@, value@)));
}

/// Add one parameter whose name and value are text.
fn push_text(out: &mut Vec<(Vec<u8>, Vec<u8>)>, name: &str, value: &str)
    ensures
        param_views(final(out)@) == param_views(old(out)@).push(pair(name@, value@)),
{
    push(out, name.as_bytes(), value.as_bytes());
}

/// A target apart at its first `?`.
pub fn split_path_query(path_and_query: &str) -> (r: (String, String))
    ensures
        r.0@ == path_part(path_and_query@),
        r.1@ == query_part(path_and_query@),
{
    let mut path: String = String::new();
    let mut query: String = String::new();
    let mut seen: bool = false;
    for c in it: path_and_query.chars()
        invariant
            it.seq() == path_and_query@,
            !path@.contains('?'),
            seen ==> it.seq().take(it.index() as int) == path@.push('?') + query@,
            !seen ==> it.seq().take(it.index() as int) == path@ && query@.len() == 0,
    {
        let ghost k = it.index() as int;
        let ghost before = path@;
        assert(it.seq().take(k + 1) =~= it.seq().take(k).push(it.seq()[k]));
        if seen {
            let ghost q = query@;
            query.push(c);
            assert(it.seq().take(k + 1) =~= path@.push('?') + query@);
        } else if c == '?' {
            seen = true;
            assert(it.seq().take(k + 1) =~= path@.push('?') + query@);
        } else {
            path.push(c);
            assert(!path@.contains('?')) by {
                if path@.contains('?') {
                    let j = choose|j: int| 0 <= j < path@.len() && path@[j] == '?';
                    assert(before[j] == '?');
                }
            }
        }
    }
    proof {
        let whole = path_and_query@;
        assert(whole.take(whole.len() as int) =~= whole);
        lemma_split_first(path@, query@, '?');
        assert(query@ =~= query_part(whole));
    }
    (path, query)
}

/// Add the first value of the header `name` under `key`, where it is visible.
fn push_entity(
    out: &mut Vec<(Vec<u8>, Vec<u8>)>,
    headers: &http::HeaderMap<http::HeaderValue>,
    name: &str,
    key: &str,
)
    requires
        lookup_key(name@) == Some(name@),
    ensures
        param_views(final(out)@) == param_views(old(out)@) + entity_params(
            header_groups(*headers),
            name@,
            seq![key@],
        ),
{
    let ghost before = param_views(out@);
    let ghost expected = entity_params(header_groups(*headers), name@, seq![key@]);
    match header_get(headers, name) {
        Some(value) => {
            if is_visible(value.as_slice()) {
                push(out, key.as_bytes(), value.as_slice());
                assert(before + expected =~= before.push((encode_utf8(key@), value@)));
            } else {
                assert(before + expected =~= before);
            }
        },
        None => {
            assert(before + expected =~= before);
        },
    }
}

/// The parameter name of the header `name`.
fn env_key(name: &str) -> (key: Vec<u8>)
    ensures
        key@ == env_name(name@),
{
    let prefix: &[u8] = "HTTP_".as_bytes();
    let mut key: Vec<u8> = slice_to_vec(prefix);
    let bytes: &[u8] = name.as_bytes();
    let ghost translated = bytes@.map_values(|b: u8| env_byte(b));
    let mut i: usize = 0;
    assert(key@ =~= encode_utf8("HTTP_"@) + translated.take(0));
    while i < bytes.len()
        invariant
            i <= bytes@.len(),
            translated == bytes@.map_values(|b: u8| env_byte(b)),
            key@ == encode_utf8("HTTP_"@) + translated.take(i as int),
        decreases bytes@.len() - i,
    {
        let b: u8 = bytes[i];
        if b == 0x2d {
            key.push(0x5f);
        } else if 0x61 <= b && b <= 0x7a {
            key.push(b - 32);
        } else {
            key.push(b);
        }
        i = i + 1;
        assert(translated.take(i as int) =~= translated.take(i - 1).push(translated[i - 1]));
        assert(key@ =~= encode_utf8("HTTP_"@) + translated.take(i as int));
    }
    assert(translated.take(i as int) =~= translated);
    key
}

/// Add the parameters of the headers that have none of their own.
fn push_headers(out: &mut Vec<(Vec<u8>, Vec<u8>)>, headers: &http::HeaderMap<http::HeaderValue>)
    ensures
        param_views(final(out)@) == param_views(old(out)@) + header_params(
            fields_of(header_groups(*headers)),
        ),
{
    let fields: Vec<(String, Vec<u8>)> = header_fields(headers);
    let ghost all = field_views(fields@);
    let ghost before = param_views(out@);
    let mut i: usize = 0;
    assert(before + header_params(all.take(0)) =~= before);
    while i < fields.len()
        invariant
            i <= fields@.len(),
            all == field_views(fields@),
            param_views(out@) == before + header_params(all.take(i as int)),
        decreases fields@.len() - i,
    {
        let name: &str = fields[i].0.as_str();
        proof {
            assert(all.take(i + 1).drop_last() =~= all.take(i as int));
            assert(all.take(i + 1).last() == (fields@[i as int].0@, fields@[i as int].1@));
        }
        if !(str_eq(name, "host") || str_eq(name, "content-type") || str_eq(
            name,
            "content-length",
        )) {
            let key: Vec<u8> = env_key(name);
            let ghost so_far = param_views(out@);
            push(out, key.as_slice(), fields[i].1.as_slice());
            assert(param_views(out@) =~= before + header_params(all.take(i + 1)));
        }
        i = i + 1;
    }
    assert(all.take(i as int) =~= all);
}

/// Build the parameters. `script_rel`, if given, is the path of a real script
/// relative to `document_root`; `path_info`, if given, is the remainder of a split
/// request.
pub fn build_params(
    method: &str,
    path_and_query: &str,
    headers: &http::HeaderMap<http::HeaderValue>,
    document_root: &str,
    script_rel: Option<&str>,
    path_info: Option<&str>,
    https: bool,
    remote_addr: &SocketAddr,
    server_addr: &SocketAddr,
    auto_login: Option<AutoLoginParams<'_>>,
) -> (out: Vec<(Vec<u8>, Vec<u8>)>)
    ensures
        param_views(out@) == params(
            method@,
            path_and_query@,
            header_groups(*headers),
            document_root@,
            opt_view(script_rel),
            opt_view(path_info),
            https,
            *remote_addr,
            *server_addr,
            auto_login,
        ),
{
    let mut out: Vec<(Vec<u8>, Vec<u8>)> = Vec::new();
    assert(param_views(out@) =~= Seq::empty());
    let (path, query) = split_path_query(path_and_query);
    let script: &str = match script_rel {
        Some(rel) => rel,
        None => "index.php",
    };
    let script_name: String = concat("/", replace_char(script, '\\', '/').as_str());
    let script_filename: String = join_path(document_root, script);
    let info: &str = match path_info {
        Some(info) => info,
        None => path.as_str(),
    };

    push_text(&mut out, "GATEWAY_INTERFACE", "CGI/1.1");
    push_text(&mut out, "SERVER_PROTOCOL", "HTTP/1.1");
    push_text(&mut out, "REQUEST_METHOD", method);
    push_text(&mut out, "REQUEST_URI", path_and_query);
    push_text(&mut out, "QUERY_STRING", query.as_str());
    push_text(&mut out, "SCRIPT_NAME", script_name.as_str());
    push_text(&mut out, "SCRIPT_FILENAME", script_filename.as_str());
    push_text(&mut out, "DOCUMENT_ROOT", document_root);
    push_text(&mut out, "PATH_INFO", info);
    let ghost first = request_params(
        method@,
        path_and_query@,
        document_root@,
        opt_view(script_rel),
        opt_view(path_info),
    );
    assert(param_views(out@) =~= first);

    push_text(&mut out, "REMOTE_ADDR", remote_addr.ip.as_str());
    push_text(&mut out, "REMOTE_PORT", decimal_str(remote_addr.port as u64).as_str());
    push_text(&mut out, "SERVER_ADDR", server_addr.ip.as_str());
    push_text(&mut out, "SERVER_PORT", decimal_str(server_addr.port as u64).as_str());
    push_text(&mut out, "SERVER_SOFTWARE", "yerd (nginx-compatible)");
    if https {
        push_text(&mut out, "HTTPS", "on");
    }
    let ghost second = first + connection_params(*remote_addr, *server_addr, https);
    assert(param_views(out@) =~= second);

    if let Some(login) = auto_login {
        push_text(
            &mut out,
            "PHP_VALUE",
            concat("auto_prepend_file=", login.prepend_script).as_str(),
        );
        push_text(&mut out, "YERD_LOGIN_USER", login.target_user);
    }
    let ghost third = second + login_params(auto_login);
    assert(param_views(out@) =~= third);

    proof {
        lemma_entity_names();
    }
    let ghost groups = header_groups(*headers);
    push_entity(&mut out, headers, "host", "SERVER_NAME");
    push_entity(&mut out, headers, "host", "HTTP_HOST");
    assert(param_views(out@) =~= third + entity_params(
        groups,
        "host"@,
        seq!["SERVER_NAME"@, "HTTP_HOST"@],
    ));
    push_entity(&mut out, headers, "content-type", "CONTENT_TYPE");
    push_entity(&mut out, headers, "content-length", "CONTENT_LENGTH");
    push_headers(&mut out, headers);
    out
}

/// The headers with parameters of their own are looked up as they are written.
proof fn lemma_entity_names()
    ensures
        lookup_key("host"@) == Some("host"@),
        lookup_key("content-type"@) == Some("content-type"@),
        lookup_key("content-length"@) == Some("content-length"@),
{
    reveal_strlit("host");
    reveal_strlit("content-type");
    reveal_strlit("content-length");
    lemma_lookup("host"@);
    lemma_lookup("content-type"@);
    lemma_lookup("content-length"@);
}

/// Whether a parameter called `key` is among `ps`.
pub open spec fn mentions(ps: Seq<(Seq<u8>, Seq<u8>)>, key: Seq<char>) -> bool {
    exists|i: int| 0 <= i < ps.len() && (#[trigger] ps[i]).0 == encode_utf8(key)
}

/// Different names have different encodings.
proof fn lemma_names_differ(a: Seq<char>, b: Seq<char>)
    requires
        a != b,
    ensures
        encode_utf8(a) != encode_utf8(b),
{
    encode_utf8_decode_utf8(a);
    encode_utf8_decode_utf8(b);
}

/// The parameter of a request header is one of those that begin with `HTTP_`, so
/// none of the server's own parameters can be set by a header.
pub proof fn law_header_params_are_prefixed(fields: Seq<(Seq<char>, Seq<u8>)>)
    ensures
        forall|i: int|
            0 <= i < header_params(fields).len() ==> encode_utf8("HTTP_"@).is_prefix_of(
                (#[trigger] header_params(fields)[i]).0,
            ),
    decreases fields.len(),
{
    if fields.len() > 0 {
        law_header_params_are_prefixed(fields.drop_last());
        let name = fields.last().0;
        let prefix = encode_utf8("HTTP_"@);
        assert(prefix =~= env_name(name).subrange(0, prefix.len() as int));
        let before = header_params(fields.drop_last());
        assert forall|i: int| 0 <= i < header_params(fields).len() implies prefix.is_prefix_of(
            (#[trigger] header_params(fields)[i]).0,
        ) by {
            if i < before.len() {
                assert(header_params(fields)[i] == before[i]);
            }
        }
    }
}

/// No header parameter is called `key`, where `key` does not begin with `HTTP_`.
proof fn lemma_header_params_without(fields: Seq<(Seq<char>, Seq<u8>)>, key: Seq<char>)
    requires
        is_ascii_chars(key),
        !"HTTP_"@.is_prefix_of(key),
    ensures
        !mentions(header_params(fields), key),
{
    law_header_params_are_prefixed(fields);
    reveal_strlit("HTTP_");
    is_ascii_chars_encode_utf8(key);
    is_ascii_chars_encode_utf8("HTTP_"@);
    let prefix = encode_utf8("HTTP_"@);
    let ps = header_params(fields);
    assert forall|i: int| 0 <= i < ps.len() implies (#[trigger] ps[i]).0 != encode_utf8(key) by {
        if ps[i].0 == encode_utf8(key) {
            assert(prefix.is_prefix_of(encode_utf8(key)));
            assert forall|k: int| 0 <= k < 5 implies "HTTP_"@[k] == key[k] by {
                assert(prefix[k] == encode_utf8(key)[k]);
            }
            assert("HTTP_"@ =~= key.take(5));
        }
    }
}

/// The names of the parameters that are not made from headers.
proof fn lemma_own_names(
    method: Seq<char>,
    target: Seq<char>,
    groups: Seq<(Seq<char>, Seq<Seq<u8>>)>,
    document_root: Seq<char>,
    script_rel: Option<Seq<char>>,
    path_info: Option<Seq<char>>,
    https: bool,
    remote: SocketAddr,
    server: SocketAddr,
    key: Seq<char>,
)
    requires
        key == "HTTPS"@ || key == "PHP_VALUE"@ || key == "YERD_LOGIN_USER"@,
    ensures
        !mentions(request_params(method, target, document_root, script_rel, path_info), key),
        key != "HTTPS"@ || !https ==> !mentions(connection_params(remote, server, https), key),
        !mentions(entity_params(groups, "host"@, seq!["SERVER_NAME"@, "HTTP_HOST"@]), key),
        !mentions(entity_params(groups, "content-type"@, seq!["CONTENT_TYPE"@]), key),
        !mentions(entity_params(groups, "content-length"@, seq!["CONTENT_LENGTH"@]), key),
        !mentions(header_params(fields_of(groups)), key),
{
    reveal_strlit("GATEWAY_INTERFACE");
    reveal_strlit("SERVER_PROTOCOL");
    reveal_strlit("REQUEST_METHOD");
    reveal_strlit("REQUEST_URI");
    reveal_strlit("QUERY_STRING");
    reveal_strlit("SCRIPT_NAME");
    reveal_strlit("SCRIPT_FILENAME");
    reveal_strlit("DOCUMENT_ROOT");
    reveal_strlit("PATH_INFO");
    reveal_strlit("REMOTE_ADDR");
    reveal_strlit("REMOTE_PORT");
    reveal_strlit("SERVER_ADDR");
    reveal_strlit("SERVER_PORT");
    reveal_strlit("SERVER_SOFTWARE");
    reveal_strlit("HTTPS");
    reveal_strlit("PHP_VALUE");
    reveal_strlit("YERD_LOGIN_USER");
    reveal_strlit("SERVER_NAME");
    reveal_strlit("HTTP_HOST");
    reveal_strlit("CONTENT_TYPE");
    reveal_strlit("CONTENT_LENGTH");
    reveal_strlit("HTTP_");
    assert("HTTPS"@[4] == 'S' && "HTTP_"@[4] == '_');
    assert("HTTPS"@[0] == 'H' && "PHP_VALUE"@[0] == 'P' && "YERD_LOGIN_USER"@[0] == 'Y');
    assert("HTTP_"@[0] == 'H' && "HTTP_HOST"@[4] == '_' && "SERVER_NAME"@[0] == 'S');
    assert("PATH_INFO"@[1] == 'A' && "PHP_VALUE"@[1] == 'H');
    let names = seq![
        "GATEWAY_INTERFACE"@,
        "SERVER_PROTOCOL"@,
        "REQUEST_METHOD"@,
        "REQUEST_URI"@,
        "QUERY_STRING"@,
        "SCRIPT_NAME"@,
        "SCRIPT_FILENAME"@,
        "DOCUMENT_ROOT"@,
        "PATH_INFO"@,
        "REMOTE_ADDR"@,
        "REMOTE_PORT"@,
        "SERVER_ADDR"@,
        "SERVER_PORT"@,
        "SERVER_SOFTWARE"@,
        "SERVER_NAME"@,
        "HTTP_HOST"@,
        "CONTENT_TYPE"@,
        "CONTENT_LENGTH"@,
    ];
    assert forall|i: int| 0 <= i < names.len() implies encode_utf8(#[trigger] names[i])
        != encode_utf8(key) by {
        assert(names[i] != key) by {
            if names[i] == key {
                assert(names[i].len() == key.len());
                assert(names[i][0] == key[0] && names[i][1] == key[1] && names[i][4] == key[4]);
            }
        }
        lemma_names_differ(names[i], key);
    }
    let requested = request_params(method, target, document_root, script_rel, path_info);
    assert forall|i: int| 0 <= i < requested.len() implies (#[trigger] requested[i]).0
        != encode_utf8(key) by {
        assert(requested[i].0 == encode_utf8(names[i]));
    }
    let connected = connection_params(remote, server, https);
    if key != "HTTPS"@ || !https {
        assert forall|i: int| 0 <= i < connected.len() implies (#[trigger] connected[i]).0
            != encode_utf8(key) by {
            if i < 5 {
                assert(connected[i].0 == encode_utf8(names[i + 9]));
            } else {
                lemma_names_differ("HTTPS"@, key);
            }
        }
    }
    assert(encode_utf8(names[14]) != encode_utf8(key) && encode_utf8(names[15]) != encode_utf8(key));
    assert(encode_utf8(names[16]) != encode_utf8(key) && encode_utf8(names[17]) != encode_utf8(key));
    lemma_header_params_without(fields_of(groups), key);
}

/// The parameters that sign a user in are there only where a login asks for them: no
/// request can bring them itself.
pub proof fn law_login_params_need_a_login(
    method: Seq<char>,
    target: Seq<char>,
    groups: Seq<(Seq<char>, Seq<Seq<u8>>)>,
    document_root: Seq<char>,
    script_rel: Option<Seq<char>>,
    path_info: Option<Seq<char>>,
    https: bool,
    remote: SocketAddr,
    server: SocketAddr,
    auto_login: Option<AutoLoginParams>,
)
    ensures
        ({
            let ps = params(
                method,
                target,
                groups,
                document_root,
                script_rel,
                path_info,
                https,
                remote,
                server,
                auto_login,
            );
            &&& mentions(ps, "PHP_VALUE"@) <==> auto_login is Some
            &&& mentions(ps, "YERD_LOGIN_USER"@) <==> auto_login is Some
        }),
{
    let a = request_params(method, target, document_root, script_rel, path_info);
    let b = a + connection_params(remote, server, https);
    let c = b + login_params(auto_login);
    let d = c + entity_params(groups, "host"@, seq!["SERVER_NAME"@, "HTTP_HOST"@]);
    let e = d + entity_params(groups, "content-type"@, seq!["CONTENT_TYPE"@]);
    let f = e + entity_params(groups, "content-length"@, seq!["CONTENT_LENGTH"@]);
    let ps = f + header_params(fields_of(groups));
    reveal_strlit("HTTPS");
    reveal_strlit("PHP_VALUE");
    reveal_strlit("YERD_LOGIN_USER");
    assert("PHP_VALUE"@.len() != "HTTPS"@.len() && "YERD_LOGIN_USER"@.len() != "HTTPS"@.len());
    lemma_own_names(
        method,
        target,
        groups,
        document_root,
        script_rel,
        path_info,
        https,
        remote,
        server,
        "PHP_VALUE"@,
    );
    lemma_own_names(
        method,
        target,
        groups,
        document_root,
        script_rel,
        path_info,
        https,
        remote,
        server,
        "YERD_LOGIN_USER"@,
    );
    if auto_login is Some {
        let at = b.len() as int;
        assert(ps[at] == login_params(auto_login)[0]);
        assert(ps[at + 1] == login_params(auto_login)[1]);
    } else {
        assert forall|i: int| 0 <= i < ps.len() implies (#[trigger] ps[i]).0 != encode_utf8(
            "PHP_VALUE"@,
        ) && ps[i].0 != encode_utf8("YERD_LOGIN_USER"@) by {
            lemma_piece_of(a, connection_params(remote, server, https), i);
            lemma_piece_of(b, login_params(auto_login), i);
            lemma_piece_of(
                c,
                entity_params(groups, "host"@, seq!["SERVER_NAME"@, "HTTP_HOST"@]),
                i,
            );
            lemma_piece_of(d, entity_params(groups, "content-type"@, seq!["CONTENT_TYPE"@]), i);
            lemma_piece_of(e, entity_params(groups, "content-length"@, seq!["CONTENT_LENGTH"@]), i);
            lemma_piece_of(f, header_params(fields_of(groups)), i);
        }
    }
}

/// Where an element of a concatenation comes from.
proof fn lemma_piece_of(a: Seq<(Seq<u8>, Seq<u8>)>, b: Seq<(Seq<u8>, Seq<u8>)>, i: int)
    ensures
        0 <= i < a.len() ==> (a + b)[i] == a[i],
        a.len() <= i < a.len() + b.len() ==> (a + b)[i] == b[i - a.len()],
{
}

/// `HTTPS` is there exactly on secure connections: no request can bring it itself.
pub proof fn law_https_param_means_secure(
    method: Seq<char>,
    target: Seq<char>,
    groups: Seq<(Seq<char>, Seq<Seq<u8>>)>,
    document_root: Seq<char>,
    script_rel: Option<Seq<char>>,
    path_info: Option<Seq<char>>,
    https: bool,
    remote: SocketAddr,
    server: SocketAddr,
    auto_login: Option<AutoLoginParams>,
)
    ensures
        mentions(
            params(
                method,
                target,
                groups,
                document_root,
                script_rel,
                path_info,
                https,
                remote,
                server,
                auto_login,
            ),
            "HTTPS"@,
        ) <==> https,
{
    let a = request_params(method, target, document_root, script_rel, path_info);
    let b = a + connection_params(remote, server, https);
    let c = b + login_params(auto_login);
    let d = c + entity_params(groups, "host"@, seq!["SERVER_NAME"@, "HTTP_HOST"@]);
    let e = d + entity_params(groups, "content-type"@, seq!["CONTENT_TYPE"@]);
    let f = e + entity_params(groups, "content-length"@, seq!["CONTENT_LENGTH"@]);
    let ps = f + header_params(fields_of(groups));
    reveal_strlit("HTTPS");
    reveal_strlit("PHP_VALUE");
    reveal_strlit("YERD_LOGIN_USER");
    lemma_names_differ("PHP_VALUE"@, "HTTPS"@);
    lemma_names_differ("YERD_LOGIN_USER"@, "HTTPS"@);
    lemma_own_names(
        method,
        target,
        groups,
        document_root,
        script_rel,
        path_info,
        https,
        remote,
        server,
        "HTTPS"@,
    );
    if https {
        let at = a.len() as int + 5;
        assert(ps[at] == pair("HTTPS"@, "on"@));
    } else {
        assert forall|i: int| 0 <= i < ps.len() implies (#[trigger] ps[i]).0 != encode_utf8(
            "HTTPS"@,
        ) by {
            lemma_piece_of(a, connection_params(remote, server, https), i);
            lemma_piece_of(b, login_params(auto_login), i);
            lemma_piece_of(
                c,
                entity_params(groups, "host"@, seq!["SERVER_NAME"@, "HTTP_HOST"@]),
                i,
            );
            lemma_piece_of(d, entity_params(groups, "content-type"@, seq!["CONTENT_TYPE"@]), i);
            lemma_piece_of(e, entity_params(groups, "content-length"@, seq!["CONTENT_LENGTH"@]), i);
            lemma_piece_of(f, header_params(fields_of(groups)), i);
        }
    }
}

/// A target is its path, followed, where it has a query, by `?` and the query.
pub proof fn law_target_is_path_and_query(target: Seq<char>)
    ensures
        !path_part(target).contains('?'),
        target.contains('?') ==> target == path_part(target).push('?') + query_part(target),
        !target.contains('?') ==> target == path_part(target) && query_part(target).len() == 0,
{
    if target.contains('?') {
        let k = target.index_of_first('?')->0;
        target.index_of_first_ensures('?');
        let a = target.take(k);
        let b = target.skip(k + 1);
        assert(!a.contains('?')) by {
            if a.contains('?') {
                let j = choose|j: int| 0 <= j < a.len() && a[j] == '?';
                assert(target[j] == '?');
            }
        }
        assert(target =~= a.push('?') + b);
        lemma_split_first(a, b, '?');
        assert(query_part(target) =~= b);
    } else {
        lemma_split_first(target, Seq::empty(), '?');
    }
}

/// The script that a request resolves to lies below the document root: its file name
/// is the root, a separator, and single path components, none of them `..`.
pub proof fn law_script_filename_stays_below_the_root(document_root: Seq<char>, url: Seq<char>)
    requires
        document_root.len() > 0,
        static_path(url) is Some,
    ensures
        joined(document_root, static_path(url)->0) == (if document_root.last() == '/' {
            document_root
        } else {
            document_root.push('/')
        }) + static_path(url)->0,
        forall|i: int|
            0 <= i < split(static_path(url)->0, '/').len() ==> safe_segment(
                #[trigger] split(static_path(url)->0, '/')[i],
            ),
{
    law_candidates_stay_below_the_root(url);
    let rel = static_path(url)->0;
    if rel.len() > 0 && rel[0] == '/' {
        assert(rel =~= Seq::<char>::empty().push('/') + rel.skip(1));
        lemma_split_first(Seq::empty(), rel.skip(1), '/');
        assert(split(rel, '/')[0].len() == 0);
    }
}

} // verus!
