use http::HeaderMap;
use yerd_proxy::cgi_params::{build_params, split_path_query, AutoLoginParams, SocketAddr};
use yerd_proxy::sites::Site;

fn lookup<'a>(pairs: &'a [(Vec<u8>, Vec<u8>)], key: &[u8]) -> Option<&'a [u8]> {
    pairs
        .iter()
        .find(|(k, _)| k == key)
        .map(|(_, v)| v.as_slice())
}

fn addr(ip: &str, port: u16) -> SocketAddr {
    SocketAddr { ip: ip.to_owned(), port }
}

fn make_headers(host: &str) -> HeaderMap {
    let mut h = HeaderMap::new();
    h.insert(http::header::HOST, host.parse().unwrap());
    h
}

#[test]
fn caddy_style_everything_to_index_php() {
    let root = "/srv/www/app";
    let pairs = build_params(
        "GET",
        "/foo/bar?a=1&b=2",
        &make_headers("app.test"),
        root,
        None,
        None,
        false,
        &addr("127.0.0.1", 54321),
        &addr("127.0.0.1", 80),
        None,
    );
    assert_eq!(
        lookup(&pairs, b"SCRIPT_NAME"),
        Some(b"/index.php".as_slice())
    );
    assert_eq!(
        lookup(&pairs, b"SCRIPT_FILENAME"),
        Some("/srv/www/app/index.php".as_bytes())
    );
    assert_eq!(lookup(&pairs, b"PATH_INFO"), Some(b"/foo/bar".as_slice()));
    assert_eq!(
        lookup(&pairs, b"REQUEST_URI"),
        Some(b"/foo/bar?a=1&b=2".as_slice())
    );
    assert_eq!(lookup(&pairs, b"QUERY_STRING"), Some(b"a=1&b=2".as_slice()));
    assert_eq!(lookup(&pairs, b"REQUEST_METHOD"), Some(b"GET".as_slice()));
    assert_eq!(lookup(&pairs, b"SERVER_NAME"), Some(b"app.test".as_slice()));
    assert_eq!(lookup(&pairs, b"HTTP_HOST"), Some(b"app.test".as_slice()));
    assert_eq!(
        lookup(&pairs, b"DOCUMENT_ROOT"),
        Some(b"/srv/www/app".as_slice())
    );
    assert!(lookup(&pairs, b"HTTPS").is_none());
}

#[test]
fn server_software_contains_nginx_for_framework_rewrite_detection() {
    // WordPress (and other frameworks) gate "pretty"/extension-less
    // permalink options on this CGI var containing a known-good server
    // name - see the module doc for the full explanation.
    let pairs = build_params(
        "GET",
        "/",
        &make_headers("app.test"),
        "/srv",
        None,
        None,
        false,
        &addr("127.0.0.1", 1),
        &addr("127.0.0.1", 80),
        None,
    );
    let software = String::from_utf8_lossy(lookup(&pairs, b"SERVER_SOFTWARE").unwrap());
    assert!(software.contains("nginx"), "got {software:?}");
}

#[test]
fn web_root_subdir_drives_script_filename_and_document_root() {
    let mut site = Site::linked("app", "/srv/www/app");
    site.web_subpath = "public".to_owned();
    let served = site.served_root();
    let pairs = build_params(
        "GET",
        "/login",
        &make_headers("app.test"),
        &served,
        None,
        None,
        false,
        &addr("127.0.0.1", 1),
        &addr("127.0.0.1", 80),
        None,
    );
    assert_eq!(
        lookup(&pairs, b"DOCUMENT_ROOT"),
        Some("/srv/www/app/public".as_bytes())
    );
    assert_eq!(
        lookup(&pairs, b"SCRIPT_FILENAME"),
        Some("/srv/www/app/public/index.php".as_bytes())
    );
}

#[test]
fn https_param_is_on_when_secure() {
    let pairs = build_params(
        "POST",
        "/",
        &make_headers("app.test"),
        "/srv/www/app",
        None,
        None,
        true,
        &addr("1.2.3.4", 1000),
        &addr("127.0.0.1", 443),
        None,
    );
    assert_eq!(lookup(&pairs, b"HTTPS"), Some(b"on".as_slice()));
}

#[test]
fn http_headers_translated_to_http_underscore() {
    let mut headers = make_headers("app.test");
    headers.insert("X-Custom", "yes".parse().unwrap());
    headers.insert(http::header::ACCEPT, "text/html".parse().unwrap());
    let pairs = build_params(
        "GET",
        "/",
        &headers,
        "/srv",
        None,
        None,
        false,
        &addr("127.0.0.1", 1),
        &addr("127.0.0.1", 80),
        None,
    );
    assert_eq!(lookup(&pairs, b"HTTP_X_CUSTOM"), Some(b"yes".as_slice()));
    assert_eq!(
        lookup(&pairs, b"HTTP_ACCEPT"),
        Some(b"text/html".as_slice())
    );
}

#[test]
fn content_type_and_length_pulled_out_of_http_prefix() {
    let mut headers = make_headers("app.test");
    headers.insert(
        http::header::CONTENT_TYPE,
        "application/json".parse().unwrap(),
    );
    headers.insert(http::header::CONTENT_LENGTH, "42".parse().unwrap());
    let pairs = build_params(
        "POST",
        "/",
        &headers,
        "/srv",
        None,
        None,
        false,
        &addr("127.0.0.1", 1),
        &addr("127.0.0.1", 80),
        None,
    );
    assert_eq!(
        lookup(&pairs, b"CONTENT_TYPE"),
        Some(b"application/json".as_slice())
    );
    assert_eq!(lookup(&pairs, b"CONTENT_LENGTH"), Some(b"42".as_slice()));
    assert!(lookup(&pairs, b"HTTP_CONTENT_TYPE").is_none());
    assert!(lookup(&pairs, b"HTTP_CONTENT_LENGTH").is_none());
}

#[test]
fn no_query_string_yields_empty_query() {
    let pairs = build_params(
        "GET",
        "/just/path",
        &make_headers("a.test"),
        "/srv",
        None,
        None,
        false,
        &addr("127.0.0.1", 1),
        &addr("127.0.0.1", 80),
        None,
    );
    assert_eq!(lookup(&pairs, b"PATH_INFO"), Some(b"/just/path".as_slice()));
    assert_eq!(lookup(&pairs, b"QUERY_STRING"), Some(b"".as_slice()));
}

#[test]
fn resolved_script_drives_script_name_and_filename() {
    let pairs = build_params(
        "GET",
        "/wp-admin/?page=1",
        &make_headers("blog.test"),
        "/srv/www/blog",
        Some("wp-admin/index.php"),
        None,
        false,
        &addr("127.0.0.1", 1),
        &addr("127.0.0.1", 80),
        None,
    );
    assert_eq!(
        lookup(&pairs, b"SCRIPT_NAME"),
        Some(b"/wp-admin/index.php".as_slice())
    );
    assert_eq!(
        lookup(&pairs, b"SCRIPT_FILENAME"),
        Some("/srv/www/blog/wp-admin/index.php".as_bytes())
    );
    // PATH_INFO stays the full request path either way - WordPress and
    // Laravel both route on REQUEST_URI, not PATH_INFO (see module doc).
    assert_eq!(lookup(&pairs, b"PATH_INFO"), Some(b"/wp-admin/".as_slice()));
}

#[test]
fn auto_login_adds_prepend_and_target_user_params() {
    let pairs = build_params(
        "GET",
        "/wp-admin/",
        &make_headers("blog.test"),
        "/srv/www/blog",
        None,
        None,
        false,
        &addr("127.0.0.1", 1),
        &addr("127.0.0.1", 80),
        Some(AutoLoginParams {
            prepend_script: "/data/wordpress-autologin-prepend.php",
            target_user: "admin",
        }),
    );
    assert_eq!(
        lookup(&pairs, b"PHP_VALUE"),
        Some(b"auto_prepend_file=/data/wordpress-autologin-prepend.php".as_slice())
    );
    assert_eq!(
        lookup(&pairs, b"YERD_LOGIN_USER"),
        Some(b"admin".as_slice())
    );
}

#[test]
fn auto_login_with_no_preference_sends_empty_target_user() {
    let pairs = build_params(
        "GET",
        "/wp-admin/",
        &make_headers("blog.test"),
        "/srv/www/blog",
        None,
        None,
        false,
        &addr("127.0.0.1", 1),
        &addr("127.0.0.1", 80),
        Some(AutoLoginParams {
            prepend_script: "/data/wordpress-autologin-prepend.php",
            target_user: "",
        }),
    );
    assert_eq!(lookup(&pairs, b"YERD_LOGIN_USER"), Some(b"".as_slice()));
}

#[test]
fn no_auto_login_omits_prepend_and_target_user_params() {
    let pairs = build_params(
        "GET",
        "/",
        &make_headers("app.test"),
        "/srv/www/app",
        None,
        None,
        false,
        &addr("127.0.0.1", 1),
        &addr("127.0.0.1", 80),
        None,
    );
    assert!(lookup(&pairs, b"PHP_VALUE").is_none());
    assert!(lookup(&pairs, b"YERD_LOGIN_USER").is_none());
}

#[test]
fn resolved_exact_script_match_drives_script_name_and_filename() {
    let pairs = build_params(
        "POST",
        "/wp-login.php",
        &make_headers("blog.test"),
        "/srv/www/blog",
        Some("wp-login.php"),
        None,
        false,
        &addr("127.0.0.1", 1),
        &addr("127.0.0.1", 80),
        None,
    );
    assert_eq!(
        lookup(&pairs, b"SCRIPT_NAME"),
        Some(b"/wp-login.php".as_slice())
    );
    assert_eq!(
        lookup(&pairs, b"SCRIPT_FILENAME"),
        Some("/srv/www/blog/wp-login.php".as_bytes())
    );
}

#[test]
fn parameters_come_in_a_fixed_order() {
    let mut headers = make_headers("app.test:8080");
    headers.append("x-a", "1".parse().unwrap());
    headers.append("cookie", "a=1".parse().unwrap());
    headers.append("x-a", "2".parse().unwrap());
    let pairs = build_params(
        "GET",
        "/x?",
        &headers,
        "/srv/",
        None,
        Some("/info"),
        true,
        &addr("10.0.0.9", 65535),
        &addr("::1", 0),
        None,
    );
    let text: Vec<(String, String)> = pairs
        .into_iter()
        .map(|(k, v)| (String::from_utf8(k).unwrap(), String::from_utf8(v).unwrap()))
        .collect();
    let expected = [
        ("GATEWAY_INTERFACE", "CGI/1.1"),
        ("SERVER_PROTOCOL", "HTTP/1.1"),
        ("REQUEST_METHOD", "GET"),
        ("REQUEST_URI", "/x?"),
        ("QUERY_STRING", ""),
        ("SCRIPT_NAME", "/index.php"),
        ("SCRIPT_FILENAME", "/srv/index.php"),
        ("DOCUMENT_ROOT", "/srv/"),
        ("PATH_INFO", "/info"),
        ("REMOTE_ADDR", "10.0.0.9"),
        ("REMOTE_PORT", "65535"),
        ("SERVER_ADDR", "::1"),
        ("SERVER_PORT", "0"),
        ("SERVER_SOFTWARE", "yerd (nginx-compatible)"),
        ("HTTPS", "on"),
        ("SERVER_NAME", "app.test:8080"),
        ("HTTP_HOST", "app.test:8080"),
        ("HTTP_X_A", "1"),
        ("HTTP_X_A", "2"),
        ("HTTP_COOKIE", "a=1"),
    ];
    assert_eq!(text.len(), expected.len());
    for (got, want) in text.iter().zip(expected) {
        assert_eq!((got.0.as_str(), got.1.as_str()), want);
    }
}

#[test]
fn an_unreadable_host_is_no_server_name() {
    let mut headers = HeaderMap::new();
    headers.insert(
        http::header::HOST,
        http::HeaderValue::from_bytes(b"caf\xc3\xa9").unwrap(),
    );
    headers.insert("x-raw", http::HeaderValue::from_bytes(b"\xff").unwrap());
    let pairs = build_params(
        "GET",
        "/",
        &headers,
        "/srv",
        None,
        None,
        false,
        &addr("127.0.0.1", 1),
        &addr("127.0.0.1", 80),
        None,
    );
    assert!(lookup(&pairs, b"SERVER_NAME").is_none());
    assert!(lookup(&pairs, b"HTTP_HOST").is_none());
    assert_eq!(lookup(&pairs, b"HTTP_X_RAW"), Some(b"\xff".as_slice()));
}

#[test]
fn headers_cannot_forge_parameters() {
    let mut headers = make_headers("app.test");
    headers.insert("https", "on".parse().unwrap());
    headers.insert("php_value", "auto_prepend_file=/x".parse().unwrap());
    headers.insert("yerd-login-user", "admin".parse().unwrap());
    let pairs = build_params(
        "GET",
        "/",
        &headers,
        "/srv",
        None,
        None,
        false,
        &addr("127.0.0.1", 1),
        &addr("127.0.0.1", 80),
        None,
    );
    assert!(lookup(&pairs, b"HTTPS").is_none());
    assert!(lookup(&pairs, b"PHP_VALUE").is_none());
    assert!(lookup(&pairs, b"YERD_LOGIN_USER").is_none());
    assert_eq!(lookup(&pairs, b"HTTP_HTTPS"), Some(b"on".as_slice()));
    assert_eq!(
        lookup(&pairs, b"HTTP_YERD_LOGIN_USER"),
        Some(b"admin".as_slice())
    );
}

#[test]
fn backslashes_and_absolute_scripts() {
    let pairs = build_params(
        "GET",
        "/a?b?c",
        &make_headers("app.test"),
        "/srv",
        Some("sub\\x.php"),
        None,
        false,
        &addr("127.0.0.1", 1),
        &addr("127.0.0.1", 80),
        None,
    );
    assert_eq!(lookup(&pairs, b"SCRIPT_NAME"), Some(b"/sub/x.php".as_slice()));
    assert_eq!(
        lookup(&pairs, b"SCRIPT_FILENAME"),
        Some(b"/srv/sub\\x.php".as_slice())
    );
    assert_eq!(lookup(&pairs, b"PATH_INFO"), Some(b"/a".as_slice()));
    assert_eq!(lookup(&pairs, b"QUERY_STRING"), Some(b"b?c".as_slice()));
    let pairs = build_params(
        "GET",
        "/",
        &make_headers("app.test"),
        "/srv",
        Some("/opt/x.php"),
        None,
        false,
        &addr("127.0.0.1", 1),
        &addr("127.0.0.1", 80),
        None,
    );
    assert_eq!(
        lookup(&pairs, b"SCRIPT_FILENAME"),
        Some(b"/opt/x.php".as_slice())
    );
}

#[test]
fn a_target_splits_at_its_first_question_mark() {
    assert_eq!(
        split_path_query("/a?b?c"),
        ("/a".to_owned(), "b?c".to_owned())
    );
    assert_eq!(split_path_query("/a"), ("/a".to_owned(), String::new()));
    assert_eq!(split_path_query("?x"), (String::new(), "x".to_owned()));
}
