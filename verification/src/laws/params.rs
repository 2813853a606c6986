//! Laws of [`cgi_params`](crate::cgi_params).

use vstd::prelude::*;
use vstd::utf8::{encode_utf8, encode_utf8_decode_utf8, is_ascii_chars, is_ascii_chars_encode_utf8};

use crate::cgi_params::{
    connection_params, entity_params, env_name, header_params, law_header_params_are_prefixed,
    law_target_is_path_and_query, login_params, params, query_part, request_params, AutoLoginParams,
    SocketAddr,
};
use crate::error::ProxyError;
use crate::headers::{fields_of, values_of, visible};
use crate::laws::wire::{law_requests_open_with_their_params, opened};
use crate::login::is_auto_login;
use crate::php::is_opening;
use crate::text::{decimal, joined, lemma_split_first, replaced};
use crate::try_files::path_part;

verus! {

/// Whether exactly one parameter is called `name`, and has the value `value`.
#[verifier::opaque]
pub open spec fn only_param(
    ps: Seq<(Seq<u8>, Seq<u8>)>,
    name: Seq<char>,
    value: Seq<u8>,
) -> bool {
    &&& ps.contains((encode_utf8(name), value))
    &&& forall|i: int, j: int|
        0 <= i < ps.len() && 0 <= j < ps.len() && (#[trigger] ps[i]).0 == encode_utf8(name) && (
        #[trigger] ps[j]).0 == encode_utf8(name) ==> i == j
}

/// Whether no parameter is called `name`.
#[verifier::opaque]
pub open spec fn no_param(ps: Seq<(Seq<u8>, Seq<u8>)>, name: Seq<char>) -> bool {
    forall|i: int| 0 <= i < ps.len() ==> (#[trigger] ps[i]).0 != encode_utf8(name)
}

/// The names of the parameters that are not made from other headers.
#[verifier::opaque]
spec fn own_names() -> Seq<Seq<char>> {
    seq![
        "GATEWAY_INTERFACE"@,
        "SERVER_PROTOCOL"@,
        "REQUEST_METHOD"@,
        "REQUEST_URI"@,
        "QUERY_STRING"@,
        "SCRIPT_NAME"@,
        "SCRIPT_FILENAME"@,
        "DOCUMENT_ROOT"@,
        "PATH_INFO"@,
        "REMOTE_ADDR"@,
        "REMOTE_PORT"@,
        "SERVER_ADDR"@,
        "SERVER_PORT"@,
        "SERVER_SOFTWARE"@,
        "HTTPS"@,
        "PHP_VALUE"@,
        "YERD_LOGIN_USER"@,
        "SERVER_NAME"@,
        "HTTP_HOST"@,
        "CONTENT_TYPE"@,
        "CONTENT_LENGTH"@,
    ]
}

/// Where a name stands among them.
spec fn place(s: Seq<char>) -> int {
    if s.len() == 17 {
        0
    } else if s.len() == 15 {
        if s[0] == 'Y' {
            16
        } else if s[1] == 'C' {
            6
        } else if s[7] == 'P' {
            1
        } else {
            13
        }
    } else if s.len() == 14 {
        if s[0] == 'R' {
            2
        } else {
            20
        }
    } else if s.len() == 13 {
        7
    } else if s.len() == 12 {
        if s[0] == 'Q' {
            4
        } else {
            19
        }
    } else if s.len() == 11 {
        if s[1] == 'C' {
            5
        } else if s[0] == 'R' {
            if s[7] == '_' {
                3
            } else if s[7] == 'A' {
                9
            } else {
                10
            }
        } else if s[7] == 'A' {
            11
        } else if s[7] == 'P' {
            12
        } else {
            17
        }
    } else if s.len() == 9 {
        if s[0] == 'H' {
            18
        } else if s[1] == 'A' {
            8
        } else {
            15
        }
    } else {
        14
    }
}

proof fn lemma_places()
    ensures
        forall|k: int| 0 <= k < 21 ==> place(#[trigger] own_names()[k]) == k,
        forall|k: int| 0 <= k < 21 && k != 18 ==> !"HTTP_"@.is_prefix_of(#[trigger] own_names()[k]),
        forall|k: int| 0 <= k < 21 ==> is_ascii_chars(#[trigger] own_names()[k]),
{
    reveal(own_names);
    reveal_strlit("GATEWAY_INTERFACE");
    reveal_strlit("SERVER_PROTOCOL");
    reveal_strlit("REQUEST_METHOD");
    reveal_strlit("REQUEST_URI");
    reveal_strlit("QUERY_STRING");
    reveal_strlit("SCRIPT_NAME");
    reveal_strlit("SCRIPT_FILENAME");
    reveal_strlit("DOCUMENT_ROOT");
    reveal_strlit("PATH_INFO");
    reveal_strlit("REMOTE_ADDR");
    reveal_strlit("REMOTE_PORT");
    reveal_strlit("SERVER_ADDR");
    reveal_strlit("SERVER_PORT");
    reveal_strlit("SERVER_SOFTWARE");
    reveal_strlit("HTTPS");
    reveal_strlit("PHP_VALUE");
    reveal_strlit("YERD_LOGIN_USER");
    reveal_strlit("SERVER_NAME");
    reveal_strlit("HTTP_HOST");
    reveal_strlit("CONTENT_TYPE");
    reveal_strlit("CONTENT_LENGTH");
    reveal_strlit("HTTP_");
    let names = own_names();
    assert forall|k: int| 0 <= k < 21 && k != 18 implies !"HTTP_"@.is_prefix_of(#[trigger] names[k]) by {
        if "HTTP_"@.is_prefix_of(names[k]) {
            assert(names[k][0] == "HTTP_"@[0]);
            assert(names[k][4] == "HTTP_"@[4]);
        }
    }
}

/// The parameters of a request, part by part, under their names.
#[verifier::opaque]
spec fn laid_out(
    a: Seq<(Seq<u8>, Seq<u8>)>,
    b: Seq<(Seq<u8>, Seq<u8>)>,
    c: Seq<(Seq<u8>, Seq<u8>)>,
    d: Seq<(Seq<u8>, Seq<u8>)>,
    e: Seq<(Seq<u8>, Seq<u8>)>,
    f: Seq<(Seq<u8>, Seq<u8>)>,
    h: Seq<(Seq<u8>, Seq<u8>)>,
) -> bool {
    &&& a.len() <= 9 && b.len() <= 6 && c.len() <= 2 && d.len() <= 2 && e.len() <= 1 && f.len() <= 1
    &&& forall|i: int| 0 <= i < a.len() ==> (#[trigger] a[i]).0 == encode_utf8(own_names()[i])
    &&& forall|i: int| 0 <= i < b.len() ==> (#[trigger] b[i]).0 == encode_utf8(own_names()[i + 9])
    &&& forall|i: int| 0 <= i < c.len() ==> (#[trigger] c[i]).0 == encode_utf8(own_names()[i + 15])
    &&& forall|i: int| 0 <= i < d.len() ==> (#[trigger] d[i]).0 == encode_utf8(own_names()[i + 17])
    &&& forall|i: int| 0 <= i < e.len() ==> (#[trigger] e[i]).0 == encode_utf8(own_names()[i + 19])
    &&& forall|i: int| 0 <= i < f.len() ==> (#[trigger] f[i]).0 == encode_utf8(own_names()[i + 20])
    &&& forall|i: int| 0 <= i < h.len() ==> encode_utf8("HTTP_"@).is_prefix_of((#[trigger] h[i]).0)
}

/// Everything that is the server's own to say has another name than what is made from
/// other headers, and than everything else that is.
proof fn lemma_named(
    a: Seq<(Seq<u8>, Seq<u8>)>,
    b: Seq<(Seq<u8>, Seq<u8>)>,
    c: Seq<(Seq<u8>, Seq<u8>)>,
    d: Seq<(Seq<u8>, Seq<u8>)>,
    e: Seq<(Seq<u8>, Seq<u8>)>,
    f: Seq<(Seq<u8>, Seq<u8>)>,
    h: Seq<(Seq<u8>, Seq<u8>)>,
    k: int,
    t: int,
)
    requires
        laid_out(a, b, c, d, e, f, h),
        0 <= k < 21 && k != 18,
        0 <= t < (a + b + c + d + e + f + h).len(),
        (a + b + c + d + e + f + h)[t].0 == encode_utf8(own_names()[k]),
    ensures
        k < 9 ==> t == k && k < a.len(),
        9 <= k < 15 ==> t == a.len() + k - 9 && k - 9 < b.len(),
        15 <= k < 17 ==> t == a.len() + b.len() + k - 15 && k - 15 < c.len(),
        k == 17 ==> t == a.len() + b.len() + c.len() && d.len() > 0,
        k == 19 ==> t == a.len() + b.len() + c.len() + d.len() && e.len() > 0,
        k == 20 ==> t == a.len() + b.len() + c.len() + d.len() + e.len() && f.len() > 0,
{
    reveal(laid_out);
    lemma_places();
    let names = own_names();
    let ps = a + b + c + d + e + f + h;
    let o1 = a.len() as int;
    let o2 = o1 + b.len();
    let o3 = o2 + c.len();
    let o4 = o3 + d.len();
    let o5 = o4 + e.len();
    let o6 = o5 + f.len();
    if t < o6 {
        let n = if t < o1 {
            t
        } else if t < o2 {
            t - o1 + 9
        } else if t < o3 {
            t - o2 + 15
        } else if t < o4 {
            t - o3 + 17
        } else if t < o5 {
            t - o4 + 19
        } else {
            t - o5 + 20
        };
        assert(ps[t].0 == encode_utf8(names[n])) by {
            if t < o1 {
                assert(ps[t] == a[t]);
            } else if t < o2 {
                assert(ps[t] == b[t - o1]);
            } else if t < o3 {
                assert(ps[t] == c[t - o2]);
            } else if t < o4 {
                assert(ps[t] == d[t - o3]);
            } else if t < o5 {
                assert(ps[t] == e[t - o4]);
            } else {
                assert(ps[t] == f[t - o5]);
            }
        }
        encode_utf8_decode_utf8(names[n]);
        encode_utf8_decode_utf8(names[k]);
        assert(place(names[n]) == n && place(names[k]) == k);
    } else {
        assert(ps[t] == h[t - o6]);
        let prefix = encode_utf8("HTTP_"@);
        assert(prefix.is_prefix_of(encode_utf8(names[k])));
        reveal_strlit("HTTP_");
        is_ascii_chars_encode_utf8("HTTP_"@);
        is_ascii_chars_encode_utf8(names[k]);
        assert forall|i: int| 0 <= i < 5 implies "HTTP_"@[i] == names[k][i] by {
            assert(prefix[i] == encode_utf8(names[k])[i]);
        }
        assert("HTTP_"@ =~= names[k].take(5));
        assert("HTTP_"@.is_prefix_of(names[k]));
    }
}

/// One of them is the only one of its name.
proof fn lemma_only(
    a: Seq<(Seq<u8>, Seq<u8>)>,
    b: Seq<(Seq<u8>, Seq<u8>)>,
    c: Seq<(Seq<u8>, Seq<u8>)>,
    d: Seq<(Seq<u8>, Seq<u8>)>,
    e: Seq<(Seq<u8>, Seq<u8>)>,
    f: Seq<(Seq<u8>, Seq<u8>)>,
    h: Seq<(Seq<u8>, Seq<u8>)>,
    k: int,
    at: int,
    value: Seq<u8>,
)
    requires
        laid_out(a, b, c, d, e, f, h),
        0 <= k < 21 && k != 18,
        0 <= at < (a + b + c + d + e + f + h).len(),
        (a + b + c + d + e + f + h)[at] == (encode_utf8(own_names()[k]), value),
    ensures
        only_param(a + b + c + d + e + f + h, own_names()[k], value),
{
    reveal(only_param);
    let ps = a + b + c + d + e + f + h;
    let name = own_names()[k];
    assert forall|i: int, j: int|
        0 <= i < ps.len() && 0 <= j < ps.len() && (#[trigger] ps[i]).0 == encode_utf8(name) && (
        #[trigger] ps[j]).0 == encode_utf8(name) implies i == j by {
        lemma_named(a, b, c, d, e, f, h, k, i);
        lemma_named(a, b, c, d, e, f, h, k, j);
    }
    assert(ps[at] == (encode_utf8(name), value));
}

/// A part that is not there leaves its names out.
proof fn lemma_none(
    a: Seq<(Seq<u8>, Seq<u8>)>,
    b: Seq<(Seq<u8>, Seq<u8>)>,
    c: Seq<(Seq<u8>, Seq<u8>)>,
    d: Seq<(Seq<u8>, Seq<u8>)>,
    e: Seq<(Seq<u8>, Seq<u8>)>,
    f: Seq<(Seq<u8>, Seq<u8>)>,
    h: Seq<(Seq<u8>, Seq<u8>)>,
    k: int,
)
    requires
        laid_out(a, b, c, d, e, f, h),
        k == 14 && b.len() <= 5 || (k == 15 || k == 16) && c.len() == 0 || k == 17 && d.len() == 0 || k
            == 19 && e.len() == 0 || k == 20 && f.len() == 0,
    ensures
        no_param(a + b + c + d + e + f + h, own_names()[k]),
{
    reveal(no_param);
    let ps = a + b + c + d + e + f + h;
    assert forall|i: int| 0 <= i < ps.len() implies (#[trigger] ps[i]).0 != encode_utf8(
        own_names()[k],
    ) by {
        if ps[i].0 == encode_utf8(own_names()[k]) {
            lemma_named(a, b, c, d, e, f, h, k, i);
        }
    }
}

proof fn lemma_name_list()
    ensures
        own_names()[0] == "GATEWAY_INTERFACE"@,
        own_names()[1] == "SERVER_PROTOCOL"@,
        own_names()[2] == "REQUEST_METHOD"@,
        own_names()[3] == "REQUEST_URI"@,
        own_names()[4] == "QUERY_STRING"@,
        own_names()[5] == "SCRIPT_NAME"@,
        own_names()[6] == "SCRIPT_FILENAME"@,
        own_names()[7] == "DOCUMENT_ROOT"@,
        own_names()[8] == "PATH_INFO"@,
        own_names()[9] == "REMOTE_ADDR"@,
        own_names()[10] == "REMOTE_PORT"@,
        own_names()[11] == "SERVER_ADDR"@,
        own_names()[12] == "SERVER_PORT"@,
        own_names()[13] == "SERVER_SOFTWARE"@,
        own_names()[14] == "HTTPS"@,
        own_names()[15] == "PHP_VALUE"@,
        own_names()[16] == "YERD_LOGIN_USER"@,
        own_names()[17] == "SERVER_NAME"@,
        own_names()[18] == "HTTP_HOST"@,
        own_names()[19] == "CONTENT_TYPE"@,
        own_names()[20] == "CONTENT_LENGTH"@,
{
    reveal(own_names);
}

/// Where each part stands.
proof fn lemma_offsets(
    a: Seq<(Seq<u8>, Seq<u8>)>,
    b: Seq<(Seq<u8>, Seq<u8>)>,
    c: Seq<(Seq<u8>, Seq<u8>)>,
    d: Seq<(Seq<u8>, Seq<u8>)>,
    e: Seq<(Seq<u8>, Seq<u8>)>,
    f: Seq<(Seq<u8>, Seq<u8>)>,
    h: Seq<(Seq<u8>, Seq<u8>)>,
)
    ensures
        ({
            let ps = a + b + c + d + e + f + h;
            let o1 = a.len() as int;
            let o2 = o1 + b.len();
            let o3 = o2 + c.len();
            let o4 = o3 + d.len();
            let o5 = o4 + e.len();
            &&& ps.len() >= o5 + f.len()
            &&& forall|i: int| 0 <= i < a.len() ==> ps[i] == #[trigger] a[i]
            &&& forall|i: int| 0 <= i < b.len() ==> ps[o1 + i] == #[trigger] b[i]
            &&& forall|i: int| 0 <= i < c.len() ==> ps[o2 + i] == #[trigger] c[i]
            &&& forall|i: int| 0 <= i < d.len() ==> ps[o3 + i] == #[trigger] d[i]
            &&& forall|i: int| 0 <= i < e.len() ==> ps[o4 + i] == #[trigger] e[i]
            &&& forall|i: int| 0 <= i < f.len() ==> ps[o5 + i] == #[trigger] f[i]
        }),
{
}

/// The parameters of a request are laid out so.
proof fn lemma_laid_out(
    method: Seq<char>,
    target: Seq<char>,
    groups: Seq<(Seq<char>, Seq<Seq<u8>>)>,
    document_root: Seq<char>,
    script_rel: Option<Seq<char>>,
    path_info: Option<Seq<char>>,
    https: bool,
    remote: SocketAddr,
    server: SocketAddr,
    auto_login: Option<AutoLoginParams>,
)
    ensures
        laid_out(
            request_params(method, target, document_root, script_rel, path_info),
            connection_params(remote, server, https),
            login_params(auto_login),
            entity_params(groups, "host"@, seq!["SERVER_NAME"@, "HTTP_HOST"@]),
            entity_params(groups, "content-type"@, seq!["CONTENT_TYPE"@]),
            entity_params(groups, "content-length"@, seq!["CONTENT_LENGTH"@]),
            header_params(fields_of(groups)),
        ),
{
    reveal(laid_out);
    law_header_params_are_prefixed(fields_of(groups));
    lemma_request_names(method, target, document_root, script_rel, path_info);
    lemma_connection_names(remote, server, https);
    lemma_other_names(groups, auto_login);
}

proof fn lemma_request_names(
    method: Seq<char>,
    target: Seq<char>,
    document_root: Seq<char>,
    script_rel: Option<Seq<char>>,
    path_info: Option<Seq<char>>,
)
    ensures
        ({
            let a = request_params(method, target, document_root, script_rel, path_info);
            &&& a.len() == 9
            &&& forall|i: int| 0 <= i < a.len() ==> (#[trigger] a[i]).0 == encode_utf8(own_names()[i])
        }),
{
    lemma_name_list();
}

proof fn lemma_connection_names(remote: SocketAddr, server: SocketAddr, https: bool)
    ensures
        ({
            let b = connection_params(remote, server, https);
            &&& 5 <= b.len() <= 6
            &&& forall|i: int|
                0 <= i < b.len() ==> (#[trigger] b[i]).0 == encode_utf8(own_names()[i + 9])
        }),
{
    lemma_name_list();
    let b = connection_params(remote, server, https);
    assert forall|i: int| 0 <= i < b.len() implies (#[trigger] b[i]).0 == encode_utf8(
        own_names()[i + 9],
    ) by {
        if i == 0 {
        } else if i == 1 {
        } else if i == 2 {
        } else if i == 3 {
        } else if i == 4 {
        } else {
            assert(i == 5);
        }
    }
}

proof fn lemma_other_names(
    groups: Seq<(Seq<char>, Seq<Seq<u8>>)>,
    auto_login: Option<AutoLoginParams>,
)
    ensures
        ({
            let c = login_params(auto_login);
            let d = entity_params(groups, "host"@, seq!["SERVER_NAME"@, "HTTP_HOST"@]);
            let e = entity_params(groups, "content-type"@, seq!["CONTENT_TYPE"@]);
            let f = entity_params(groups, "content-length"@, seq!["CONTENT_LENGTH"@]);
            &&& c.len() <= 2 && d.len() <= 2 && e.len() <= 1 && f.len() <= 1
            &&& forall|i: int|
                0 <= i < c.len() ==> (#[trigger] c[i]).0 == encode_utf8(own_names()[i + 15])
            &&& forall|i: int|
                0 <= i < d.len() ==> (#[trigger] d[i]).0 == encode_utf8(own_names()[i + 17])
            &&& forall|i: int|
                0 <= i < e.len() ==> (#[trigger] e[i]).0 == encode_utf8(own_names()[i + 19])
            &&& forall|i: int|
                0 <= i < f.len() ==> (#[trigger] f[i]).0 == encode_utf8(own_names()[i + 20])
        }),
{
    lemma_name_list();
}

/// The first value under a header, where it is visible.
pub open spec fn shown(groups: Seq<(Seq<char>, Seq<Seq<u8>>)>, name: Seq<char>) -> Option<Seq<u8>> {
    if values_of(groups, name).len() > 0 && visible(values_of(groups, name)[0]) {
        Some(values_of(groups, name)[0])
    } else {
        None
    }
}

/// What PHP learns of a request is there exactly once, and is what the request has: its
/// method and its whole target, and the script with its root and its extra path.
pub proof fn law_request_params(
    method: Seq<char>,
    target: Seq<char>,
    groups: Seq<(Seq<char>, Seq<Seq<u8>>)>,
    document_root: Seq<char>,
    script_rel: Option<Seq<char>>,
    path_info: Option<Seq<char>>,
    https: bool,
    remote: SocketAddr,
    server: SocketAddr,
    auto_login: Option<AutoLoginParams>,
)
    ensures
        ({
            let ps = params(
                method,
                target,
                groups,
                document_root,
                script_rel,
                path_info,
                https,
                remote,
                server,
                auto_login,
            );
            let script = if script_rel is Some {
                script_rel->0
            } else {
                "index.php"@
            };
            &&& only_param(ps, "REQUEST_METHOD"@, encode_utf8(method))
            &&& only_param(ps, "REQUEST_URI"@, encode_utf8(target))
            &&& only_param(ps, "SCRIPT_NAME"@, encode_utf8(seq!['/'] + replaced(script, '\\', '/')))
            &&& only_param(ps, "SCRIPT_FILENAME"@, encode_utf8(joined(document_root, script)))
            &&& only_param(ps, "DOCUMENT_ROOT"@, encode_utf8(document_root))
            &&& path_info is Some ==> only_param(ps, "PATH_INFO"@, encode_utf8(path_info->0))
            &&& only_param(ps, "GATEWAY_INTERFACE"@, encode_utf8("CGI/1.1"@))
            &&& only_param(ps, "SERVER_PROTOCOL"@, encode_utf8("HTTP/1.1"@))
        }),
{
    let a = request_params(method, target, document_root, script_rel, path_info);
    let b = connection_params(remote, server, https);
    let c = login_params(auto_login);
    let d = entity_params(groups, "host"@, seq!["SERVER_NAME"@, "HTTP_HOST"@]);
    let e = entity_params(groups, "content-type"@, seq!["CONTENT_TYPE"@]);
    let f = entity_params(groups, "content-length"@, seq!["CONTENT_LENGTH"@]);
    let h = header_params(fields_of(groups));
    let o1 = a.len() as int;
    let o2 = o1 + b.len();
    let o3 = o2 + c.len();
    let o4 = o3 + d.len();
    let o5 = o4 + e.len();
    lemma_laid_out(
        method,
        target,
        groups,
        document_root,
        script_rel,
        path_info,
        https,
        remote,
        server,
        auto_login,
    );
    lemma_offsets(a, b, c, d, e, f, h);
    lemma_name_list();
    reveal_strlit("/");
    assert("/"@ =~= seq!['/']);
    lemma_only(a, b, c, d, e, f, h, 0, 0, a[0].1);
    lemma_only(a, b, c, d, e, f, h, 1, 1, a[1].1);
    lemma_only(a, b, c, d, e, f, h, 2, 2, a[2].1);
    lemma_only(a, b, c, d, e, f, h, 3, 3, a[3].1);
    lemma_only(a, b, c, d, e, f, h, 5, 5, a[5].1);
    lemma_only(a, b, c, d, e, f, h, 6, 6, a[6].1);
    lemma_only(a, b, c, d, e, f, h, 7, 7, a[7].1);
    lemma_only(a, b, c, d, e, f, h, 8, 8, a[8].1);
}

/// `QUERY_STRING` is what follows the first `?` of the target, and `PATH_INFO`, where no
/// other is given, what stands before it.
pub proof fn law_target_params(
    method: Seq<char>,
    target: Seq<char>,
    groups: Seq<(Seq<char>, Seq<Seq<u8>>)>,
    document_root: Seq<char>,
    script_rel: Option<Seq<char>>,
    path_info: Option<Seq<char>>,
    https: bool,
    remote: SocketAddr,
    server: SocketAddr,
    auto_login: Option<AutoLoginParams>,
)
    ensures
        ({
            let ps = params(
                method,
                target,
                groups,
                document_root,
                script_rel,
                path_info,
                https,
                remote,
                server,
                auto_login,
            );
            &&& forall|p: Seq<char>, q: Seq<char>|
                !p.contains('?') && target == #[trigger] (p.push('?') + q) ==> only_param(
                    ps,
                    "QUERY_STRING"@,
                    encode_utf8(q),
                ) && (path_info is None ==> only_param(ps, "PATH_INFO"@, encode_utf8(p)))
            &&& !target.contains('?') ==> only_param(ps, "QUERY_STRING"@, Seq::empty()) && (path_info is None
                ==> only_param(ps, "PATH_INFO"@, encode_utf8(target)))
        }),
{
    let a = request_params(method, target, document_root, script_rel, path_info);
    let b = connection_params(remote, server, https);
    let c = login_params(auto_login);
    let d = entity_params(groups, "host"@, seq!["SERVER_NAME"@, "HTTP_HOST"@]);
    let e = entity_params(groups, "content-type"@, seq!["CONTENT_TYPE"@]);
    let f = entity_params(groups, "content-length"@, seq!["CONTENT_LENGTH"@]);
    let h = header_params(fields_of(groups));
    let o1 = a.len() as int;
    let o2 = o1 + b.len();
    let o3 = o2 + c.len();
    let o4 = o3 + d.len();
    let o5 = o4 + e.len();
    lemma_laid_out(
        method,
        target,
        groups,
        document_root,
        script_rel,
        path_info,
        https,
        remote,
        server,
        auto_login,
    );
    lemma_offsets(a, b, c, d, e, f, h);
    lemma_name_list();
    lemma_only(a, b, c, d, e, f, h, 4, 4, a[4].1);
    lemma_only(a, b, c, d, e, f, h, 8, 8, a[8].1);
    law_target_is_path_and_query(target);
    if !target.contains('?') {
        assert(encode_utf8(query_part(target)) =~= Seq::empty());
    }
    assert forall|p: Seq<char>, q: Seq<char>|
        !p.contains('?') && target == #[trigger] (p.push('?') + q) implies query_part(target) == q
        && path_part(target) == p by {
        lemma_split_first(p, q, '?');
        assert(target.skip(p.len() as int + 1) =~= q);
    }
}

/// What PHP learns of the connection is there exactly once, and `HTTPS` only on a secure
/// one.
pub proof fn law_connection_params(
    method: Seq<char>,
    target: Seq<char>,
    groups: Seq<(Seq<char>, Seq<Seq<u8>>)>,
    document_root: Seq<char>,
    script_rel: Option<Seq<char>>,
    path_info: Option<Seq<char>>,
    https: bool,
    remote: SocketAddr,
    server: SocketAddr,
    auto_login: Option<AutoLoginParams>,
)
    ensures
        ({
            let ps = params(
                method,
                target,
                groups,
                document_root,
                script_rel,
                path_info,
                https,
                remote,
                server,
                auto_login,
            );
            &&& only_param(ps, "REMOTE_ADDR"@, encode_utf8(remote.ip@))
            &&& only_param(ps, "REMOTE_PORT"@, encode_utf8(decimal(remote.port as nat)))
            &&& only_param(ps, "SERVER_ADDR"@, encode_utf8(server.ip@))
            &&& only_param(ps, "SERVER_PORT"@, encode_utf8(decimal(server.port as nat)))
            &&& only_param(ps, "SERVER_SOFTWARE"@, encode_utf8("yerd (nginx-compatible)"@))
            &&& https ==> only_param(ps, "HTTPS"@, encode_utf8("on"@))
            &&& !https ==> no_param(ps, "HTTPS"@)
        }),
{
    let a = request_params(method, target, document_root, script_rel, path_info);
    let b = connection_params(remote, server, https);
    let c = login_params(auto_login);
    let d = entity_params(groups, "host"@, seq!["SERVER_NAME"@, "HTTP_HOST"@]);
    let e = entity_params(groups, "content-type"@, seq!["CONTENT_TYPE"@]);
    let f = entity_params(groups, "content-length"@, seq!["CONTENT_LENGTH"@]);
    let h = header_params(fields_of(groups));
    let o1 = a.len() as int;
    let o2 = o1 + b.len();
    let o3 = o2 + c.len();
    let o4 = o3 + d.len();
    let o5 = o4 + e.len();
    lemma_laid_out(
        method,
        target,
        groups,
        document_root,
        script_rel,
        path_info,
        https,
        remote,
        server,
        auto_login,
    );
    lemma_offsets(a, b, c, d, e, f, h);
    lemma_name_list();
    lemma_only(a, b, c, d, e, f, h, 9, o1 + 0, b[0].1);
    lemma_only(a, b, c, d, e, f, h, 10, o1 + 1, b[1].1);
    lemma_only(a, b, c, d, e, f, h, 11, o1 + 2, b[2].1);
    lemma_only(a, b, c, d, e, f, h, 12, o1 + 3, b[3].1);
    lemma_only(a, b, c, d, e, f, h, 13, o1 + 4, b[4].1);
    if https {
        lemma_only(a, b, c, d, e, f, h, 14, o1 + 5, b[5].1);
    } else {
        lemma_none(a, b, c, d, e, f, h, 14);
    }
}

/// A login brings its script and its user, exactly once; without one there is neither.
pub proof fn law_login_params(
    method: Seq<char>,
    target: Seq<char>,
    groups: Seq<(Seq<char>, Seq<Seq<u8>>)>,
    document_root: Seq<char>,
    script_rel: Option<Seq<char>>,
    path_info: Option<Seq<char>>,
    https: bool,
    remote: SocketAddr,
    server: SocketAddr,
    auto_login: Option<AutoLoginParams>,
)
    ensures
        ({
            let ps = params(
                method,
                target,
                groups,
                document_root,
                script_rel,
                path_info,
                https,
                remote,
                server,
                auto_login,
            );
            &&& auto_login is Some ==> only_param(
                ps,
                "PHP_VALUE"@,
                encode_utf8("auto_prepend_file="@ + auto_login->0.prepend_script@),
            ) && only_param(ps, "YERD_LOGIN_USER"@, encode_utf8(auto_login->0.target_user@))
            &&& auto_login is None ==> no_param(ps, "PHP_VALUE"@) && no_param(ps, "YERD_LOGIN_USER"@)
        }),
{
    let a = request_params(method, target, document_root, script_rel, path_info);
    let b = connection_params(remote, server, https);
    let c = login_params(auto_login);
    let d = entity_params(groups, "host"@, seq!["SERVER_NAME"@, "HTTP_HOST"@]);
    let e = entity_params(groups, "content-type"@, seq!["CONTENT_TYPE"@]);
    let f = entity_params(groups, "content-length"@, seq!["CONTENT_LENGTH"@]);
    let h = header_params(fields_of(groups));
    let o1 = a.len() as int;
    let o2 = o1 + b.len();
    let o3 = o2 + c.len();
    let o4 = o3 + d.len();
    let o5 = o4 + e.len();
    lemma_laid_out(
        method,
        target,
        groups,
        document_root,
        script_rel,
        path_info,
        https,
        remote,
        server,
        auto_login,
    );
    lemma_offsets(a, b, c, d, e, f, h);
    lemma_name_list();
    if auto_login is Some {
        lemma_only(a, b, c, d, e, f, h, 15, o2, c[0].1);
        lemma_only(a, b, c, d, e, f, h, 16, o2 + 1, c[1].1);
    } else {
        lemma_none(a, b, c, d, e, f, h, 15);
        lemma_none(a, b, c, d, e, f, h, 16);
    }
}

/// The host, the type and the length of the request are there exactly where it has them,
/// as it has them.
pub proof fn law_entity_params(
    method: Seq<char>,
    target: Seq<char>,
    groups: Seq<(Seq<char>, Seq<Seq<u8>>)>,
    document_root: Seq<char>,
    script_rel: Option<Seq<char>>,
    path_info: Option<Seq<char>>,
    https: bool,
    remote: SocketAddr,
    server: SocketAddr,
    auto_login: Option<AutoLoginParams>,
)
    ensures
        ({
            let ps = params(
                method,
                target,
                groups,
                document_root,
                script_rel,
                path_info,
                https,
                remote,
                server,
                auto_login,
            );
            &&& shown(groups, "host"@) is Some ==> only_param(
                ps,
                "SERVER_NAME"@,
                shown(groups, "host"@)->0,
            ) && ps.contains((encode_utf8("HTTP_HOST"@), shown(groups, "host"@)->0))
            &&& shown(groups, "host"@) is None ==> no_param(ps, "SERVER_NAME"@)
            &&& shown(groups, "content-type"@) is Some ==> only_param(
                ps,
                "CONTENT_TYPE"@,
                shown(groups, "content-type"@)->0,
            )
            &&& shown(groups, "content-type"@) is None ==> no_param(ps, "CONTENT_TYPE"@)
            &&& shown(groups, "content-length"@) is Some ==> only_param(
                ps,
                "CONTENT_LENGTH"@,
                shown(groups, "content-length"@)->0,
            )
            &&& shown(groups, "content-length"@) is None ==> no_param(ps, "CONTENT_LENGTH"@)
        }),
{
    let a = request_params(method, target, document_root, script_rel, path_info);
    let b = connection_params(remote, server, https);
    let c = login_params(auto_login);
    let d = entity_params(groups, "host"@, seq!["SERVER_NAME"@, "HTTP_HOST"@]);
    let e = entity_params(groups, "content-type"@, seq!["CONTENT_TYPE"@]);
    let f = entity_params(groups, "content-length"@, seq!["CONTENT_LENGTH"@]);
    let h = header_params(fields_of(groups));
    let o1 = a.len() as int;
    let o2 = o1 + b.len();
    let o3 = o2 + c.len();
    let o4 = o3 + d.len();
    let o5 = o4 + e.len();
    lemma_laid_out(
        method,
        target,
        groups,
        document_root,
        script_rel,
        path_info,
        https,
        remote,
        server,
        auto_login,
    );
    lemma_offsets(a, b, c, d, e, f, h);
    lemma_name_list();
    let ps = a + b + c + d + e + f + h;
    if shown(groups, "host"@) is Some {
        lemma_only(a, b, c, d, e, f, h, 17, o3, d[0].1);
        assert(ps[o3 + 1] == d[1]);
    } else {
        lemma_none(a, b, c, d, e, f, h, 17);
    }
    if shown(groups, "content-type"@) is Some {
        lemma_only(a, b, c, d, e, f, h, 19, o4, e[0].1);
    } else {
        lemma_none(a, b, c, d, e, f, h, 19);
    }
    if shown(groups, "content-length"@) is Some {
        lemma_only(a, b, c, d, e, f, h, 20, o5, f[0].1);
    } else {
        lemma_none(a, b, c, d, e, f, h, 20);
    }
}

/// Whether a header has parameters of its own.
pub open spec fn of_its_own(name: Seq<char>) -> bool {
    name == "host"@ || name == "content-type"@ || name == "content-length"@
}

/// Every other header field becomes a parameter, in its order and with its value as it
/// is: none is left out, and none is added.
pub proof fn law_other_headers_become_params(fields: Seq<(Seq<char>, Seq<u8>)>)
    ensures
        header_params(fields) == fields.filter(|f: (Seq<char>, Seq<u8>)| !of_its_own(f.0)).map_values(
            |f: (Seq<char>, Seq<u8>)| (env_name(f.0), f.1),
        ),
    decreases fields.len(),
{
    reveal(Seq::filter);
    if fields.len() == 0 {
        assert(header_params(fields) =~= fields.filter(
            |f: (Seq<char>, Seq<u8>)| !of_its_own(f.0),
        ).map_values(|f: (Seq<char>, Seq<u8>)| (env_name(f.0), f.1)));
    } else {
        law_other_headers_become_params(fields.drop_last());
        assert(header_params(fields) =~= fields.filter(
            |f: (Seq<char>, Seq<u8>)| !of_its_own(f.0),
        ).map_values(|f: (Seq<char>, Seq<u8>)| (env_name(f.0), f.1)));
    }
}

/// The parameter of a header is called `HTTP_` and the name of the header, its small
/// letters made capitals and its dashes underscores.
pub proof fn law_env_names(name: Seq<char>)
    requires
        forall|i: int| 0 <= i < name.len() ==> ' ' <= (#[trigger] name[i]) <= '~',
    ensures
        env_name(name).len() == 5 + name.len(),
        env_name(name).take(5) == seq![0x48u8, 0x54, 0x54, 0x50, 0x5f],
        forall|i: int|
            0 <= i < name.len() ==> (#[trigger] env_name(name)[5 + i]) as int == if name[i] == '-' {
                '_' as int
            } else if 'a' <= name[i] <= 'z' {
                name[i] as int - 32
            } else {
                name[i] as int
            },
{
    reveal_strlit("HTTP_");
    assert(is_ascii_chars(name));
    is_ascii_chars_encode_utf8(name);
    is_ascii_chars_encode_utf8("HTTP_"@);
    assert(env_name(name).take(5) =~= seq![0x48u8, 0x54, 0x54, 0x50, 0x5f]);
    assert forall|i: int| 0 <= i < name.len() implies (#[trigger] env_name(name)[5 + i]) as int == if name[i]
        == '-' {
        '_' as int
    } else if 'a' <= name[i] <= 'z' {
        name[i] as int - 32
    } else {
        name[i] as int
    } by {
        assert(encode_utf8(name)[i] == name[i] as u8);
    }
}

/// The parameters end with those of all other header fields of the request.
pub proof fn law_headers_reach_the_script(
    method: Seq<char>,
    target: Seq<char>,
    groups: Seq<(Seq<char>, Seq<Seq<u8>>)>,
    document_root: Seq<char>,
    script_rel: Option<Seq<char>>,
    path_info: Option<Seq<char>>,
    https: bool,
    remote: SocketAddr,
    server: SocketAddr,
    auto_login: Option<AutoLoginParams>,
)
    ensures
        fields_of(groups).filter(|f: (Seq<char>, Seq<u8>)| !of_its_own(f.0)).map_values(
            |f: (Seq<char>, Seq<u8>)| (env_name(f.0), f.1),
        ).is_suffix_of(
            params(
                method,
                target,
                groups,
                document_root,
                script_rel,
                path_info,
                https,
                remote,
                server,
                auto_login,
            ),
        ),
{
    law_other_headers_become_params(fields_of(groups));
    let ps = params(
        method,
        target,
        groups,
        document_root,
        script_rel,
        path_info,
        https,
        remote,
        server,
        auto_login,
    );
    let h = header_params(fields_of(groups));
    assert(ps.skip(ps.len() - h.len()) =~= h);
}

/// A user who was signed in reaches the script, with the script that signs them in, where
/// there is one; no one else does.
pub proof fn law_logins_reach_the_script(
    method: Seq<char>,
    target: Seq<char>,
    groups: Seq<(Seq<char>, Seq<Seq<u8>>)>,
    document_root: Seq<char>,
    script_rel: Option<Seq<char>>,
    path_info: Option<Seq<char>>,
    https: bool,
    remote: SocketAddr,
    server: SocketAddr,
    login: Option<AutoLoginParams>,
    user: Option<String>,
    script: Option<&str>,
)
    requires
        is_auto_login(login, user, script),
    ensures
        ({
            let ps = params(
                method,
                target,
                groups,
                document_root,
                script_rel,
                path_info,
                https,
                remote,
                server,
                login,
            );
            if user is Some && script is Some {
                &&& only_param(ps, "PHP_VALUE"@, encode_utf8("auto_prepend_file="@ + script->0@))
                &&& only_param(ps, "YERD_LOGIN_USER"@, encode_utf8(user->0@))
            } else {
                no_param(ps, "PHP_VALUE"@) && no_param(ps, "YERD_LOGIN_USER"@)
            }
        }),
{
    law_login_params(
        method,
        target,
        groups,
        document_root,
        script_rel,
        path_info,
        https,
        remote,
        server,
        login,
    );
}

/// A forwarded request opens with its parameters, and they read back as they were made of
/// the request.
pub proof fn law_forwarded_requests_open(
    r: Result<Vec<u8>, ProxyError>,
    method: Seq<char>,
    target: Seq<char>,
    groups: Seq<(Seq<char>, Seq<Seq<u8>>)>,
    document_root: Seq<char>,
    script_rel: Option<Seq<char>>,
    path_info: Option<Seq<char>>,
    https: bool,
    remote: SocketAddr,
    server: SocketAddr,
    auto_login: Option<AutoLoginParams>,
)
    requires
        is_opening(
            r,
            method,
            target,
            groups,
            document_root,
            script_rel,
            path_info,
            https,
            remote,
            server,
            auto_login,
        ),
    ensures
        r is Ok ==> opened(r->Ok_0@) == Some(
            params(
                method,
                target,
                groups,
                document_root,
                script_rel,
                path_info,
                https,
                remote,
                server,
                auto_login,
            ),
        ),
        r is Err ==> exists|i: int|
            0 <= i < params(
                method,
                target,
                groups,
                document_root,
                script_rel,
                path_info,
                https,
                remote,
                server,
                auto_login,
            ).len() && ((#[trigger] params(
                method,
                target,
                groups,
                document_root,
                script_rel,
                path_info,
                https,
                remote,
                server,
                auto_login,
            )[i]).0.len() > 0x7fff_ffff || params(
                method,
                target,
                groups,
                document_root,
                script_rel,
                path_info,
                https,
                remote,
                server,
                auto_login,
            )[i].1.len() > 0x7fff_ffff),
{
    law_requests_open_with_their_params(
        r,
        params(
            method,
            target,
            groups,
            document_root,
            script_rel,
            path_info,
            https,
            remote,
            server,
            auto_login,
        ),
    );
}

/// There are no other parameters: nine of the request, five of the connection, one of a
/// secure one, two of a login, those of the host, the type and the length that the request
/// has, and one for each other header field.
pub proof fn law_no_param_is_added(
    method: Seq<char>,
    target: Seq<char>,
    groups: Seq<(Seq<char>, Seq<Seq<u8>>)>,
    document_root: Seq<char>,
    script_rel: Option<Seq<char>>,
    path_info: Option<Seq<char>>,
    https: bool,
    remote: SocketAddr,
    server: SocketAddr,
    auto_login: Option<AutoLoginParams>,
)
    ensures
        params(
            method,
            target,
            groups,
            document_root,
            script_rel,
            path_info,
            https,
            remote,
            server,
            auto_login,
        ).len() == 14 + (if https {
            1int
        } else {
            0
        }) + (if auto_login is Some {
            2int
        } else {
            0
        }) + (if shown(groups, "host"@) is Some {
            2int
        } else {
            0
        }) + (if shown(groups, "content-type"@) is Some {
            1int
        } else {
            0
        }) + (if shown(groups, "content-length"@) is Some {
            1int
        } else {
            0
        }) + fields_of(groups).filter(|f: (Seq<char>, Seq<u8>)| !of_its_own(f.0)).len(),
{
    law_other_headers_become_params(fields_of(groups));
}

} // verus!
