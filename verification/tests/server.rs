use yerd_proxy::error::ProxyError;
use yerd_proxy::login::{consume_login_token_if_present, LoginTokenConsumer};
use yerd_proxy::replies::{
    bad_request_response, clear_response, internal_error_response, not_found_response,
    picker_response, server_header, switch_response, synthetic_error, unbound_not_found, Response,
    PROXY_SERVER_ID,
};
use yerd_proxy::sites::{Site, SiteKind, SiteRouter};
use yerd_proxy::unbound::{
    classify_unbound, decide_picker, join_path_query, kind_label, site_header_value,
    UnboundDecision,
};

const HTML: Option<&str> = Some("text/html,application/xhtml+xml");

fn router() -> SiteRouter {
    SiteRouter::from_sites(
        "test",
        vec![
            Site::parked("app", "/srv/app"),
            Site::linked("blog", "/srv/blog"),
        ],
    )
}

/// GET classification with the shared router.
fn classify(
    path: &str,
    query: Option<&str>,
    header: Option<&str>,
    cookie: Option<&str>,
    accept: Option<&str>,
) -> UnboundDecision {
    classify_unbound(&router(), "GET", path, query, header, cookie, accept)
}

fn served_name(d: UnboundDecision) -> String {
    match d {
        UnboundDecision::Serve(s) => s.name,
        other => panic!("expected Serve, got {}", variant(&other)),
    }
}

fn variant(d: &UnboundDecision) -> &'static str {
    match d {
        UnboundDecision::Serve(_) => "Serve",
        UnboundDecision::Switch { .. } => "Switch",
        UnboundDecision::Picker { .. } => "Picker",
        UnboundDecision::NotFound { .. } => "NotFound",
        UnboundDecision::ClearPin => "ClearPin",
    }
}

#[test]
fn header_routes_directly() {
    assert_eq!(
        served_name(classify("/", None, Some("app.test"), None, None)),
        "app"
    );
    assert_eq!(
        served_name(classify("/", None, Some("blog"), None, None)),
        "blog"
    );
}

#[test]
fn header_unknown_is_404_not_picker() {
    match classify("/", None, Some("ghost.test"), None, HTML) {
        UnboundDecision::NotFound { clear } => assert!(!clear),
        other => panic!("expected NotFound, got {}", variant(&other)),
    }
}

#[test]
fn switch_sets_cookie_and_location() {
    match classify("/~app.test", None, None, None, HTML) {
        UnboundDecision::Switch { name, location } => {
            assert_eq!(name, "app");
            assert_eq!(location, "/");
        }
        other => panic!("expected Switch, got {}", variant(&other)),
    }
    match classify("/~app.test/x", Some("y=1"), None, None, None) {
        UnboundDecision::Switch { name, location } => {
            assert_eq!(name, "app");
            assert_eq!(location, "/x?y=1");
        }
        other => panic!("expected Switch, got {}", variant(&other)),
    }
}

#[test]
fn switch_works_for_any_method() {
    let d = classify_unbound(
        &router(),
        "POST",
        "/~app.test/login",
        None,
        None,
        None,
        None,
    );
    assert!(matches!(d, UnboundDecision::Switch { .. }));
}

#[test]
fn switch_beats_existing_cookie() {
    assert_eq!(
        match classify("/~blog.test/p", None, None, Some("yerd-site=app"), HTML) {
            UnboundDecision::Switch { name, .. } => name,
            other => panic!("expected Switch, got {}", variant(&other)),
        },
        "blog"
    );
}

#[test]
fn bare_tilde_clears_pin() {
    for path in ["/~", "/~/"] {
        assert!(
            matches!(
                classify(path, None, None, None, HTML),
                UnboundDecision::ClearPin
            ),
            "path {path:?} with no cookie"
        );
        assert!(
            matches!(
                classify(path, None, None, Some("yerd-site=app"), HTML),
                UnboundDecision::ClearPin
            ),
            "path {path:?} should clear an existing pin"
        );
    }
}

#[test]
fn header_beats_bare_clear() {
    assert_eq!(
        served_name(classify("/~", None, Some("app.test"), None, HTML)),
        "app"
    );
}

#[test]
fn domain_switch_not_confused_with_clear() {
    for path in ["/~app.test", "/~app.test/"] {
        assert!(
            matches!(
                classify(path, None, None, None, HTML),
                UnboundDecision::Switch { .. }
            ),
            "path {path:?} should still switch"
        );
    }
}

#[test]
fn unknown_switch_degrades_to_picker_for_browsers() {
    match classify("/~nope.test/p", None, None, None, HTML) {
        UnboundDecision::Picker { dest, clear } => {
            assert_eq!(dest, "/p");
            assert!(!clear);
        }
        other => panic!("expected Picker, got {}", variant(&other)),
    }
    assert!(matches!(
        classify("/~nope.test/p", None, None, None, Some("application/json")),
        UnboundDecision::NotFound { .. }
    ));
}

#[test]
fn cookie_serves_pinned_site() {
    assert_eq!(
        served_name(classify(
            "/dashboard",
            None,
            None,
            Some("yerd-site=app"),
            None
        )),
        "app"
    );
}

#[test]
fn stale_cookie_clears_and_picks_or_404s() {
    match classify("/x", None, None, Some("yerd-site=ghost"), HTML) {
        UnboundDecision::Picker { dest, clear } => {
            assert_eq!(dest, "/x");
            assert!(clear);
        }
        other => panic!("expected Picker, got {}", variant(&other)),
    }
    match classify(
        "/x.css",
        None,
        None,
        Some("yerd-site=ghost"),
        Some("text/css"),
    ) {
        UnboundDecision::NotFound { clear } => assert!(clear),
        other => panic!("expected NotFound, got {}", variant(&other)),
    }
}

#[test]
fn no_cookie_navigation_shows_picker_with_dest() {
    match classify("/example", Some("x=1"), None, None, HTML) {
        UnboundDecision::Picker { dest, clear } => {
            assert_eq!(dest, "/example?x=1");
            assert!(!clear);
        }
        other => panic!("expected Picker, got {}", variant(&other)),
    }
}

#[test]
fn no_cookie_asset_request_is_404() {
    assert!(matches!(
        classify("/app.css", None, None, None, Some("text/css,*/*;q=0.1")),
        UnboundDecision::NotFound { clear: false }
    ));
}

#[test]
fn header_beats_switch() {
    assert_eq!(
        served_name(classify(
            "/~blog.test/p",
            None,
            Some("app.test"),
            None,
            HTML
        )),
        "app"
    );
}

#[test]
fn blank_header_falls_through() {
    match classify("/", None, Some("   "), None, HTML) {
        UnboundDecision::Picker { dest, .. } => assert_eq!(dest, "/"),
        other => panic!("expected Picker, got {}", variant(&other)),
    }
}

#[test]
fn switch_location_is_same_origin() {
    match classify("/~app.test//evil.com", None, None, None, HTML) {
        UnboundDecision::Switch { location, .. } => assert_eq!(location, "/evil.com"),
        other => panic!("expected Switch, got {}", variant(&other)),
    }
    match classify("//evil.com", None, None, None, HTML) {
        UnboundDecision::Picker { dest, .. } => assert_eq!(dest, "/evil.com"),
        other => panic!("expected Picker, got {}", variant(&other)),
    }
}

#[test]
fn site_header_value_prefers_canonical_then_alias() {
    let mut h = http::HeaderMap::new();
    assert_eq!(site_header_value(&h), None);
    h.insert("x-yerdsite", "blog".parse().unwrap());
    assert_eq!(site_header_value(&h).as_deref(), Some("blog"));
    h.insert("x-yerd-site", "app.test".parse().unwrap());
    assert_eq!(site_header_value(&h).as_deref(), Some("app.test"));
}

#[test]
fn site_header_value_reads_utf8_and_nothing_else() {
    let mut h = http::HeaderMap::new();
    h.insert("x-yerdsite", "blog".parse().unwrap());
    let value = http::HeaderValue::from_bytes("caf\u{e9}.test".as_bytes()).unwrap();
    h.insert("x-yerd-site", value);
    assert_eq!(site_header_value(&h).as_deref(), Some("caf\u{e9}.test"));
    h.insert("x-yerd-site", http::HeaderValue::from_bytes(b"caf\xe9").unwrap());
    assert_eq!(site_header_value(&h), None);
}

fn header(resp: &Response<Vec<u8>>, name: &str) -> Option<String> {
    resp.headers
        .get(name)
        .and_then(|v| v.to_str().ok())
        .map(str::to_owned)
}

#[test]
fn switch_response_shape() {
    let resp = switch_response("app", "/x?y=1").unwrap();
    assert_eq!(resp.status, 303);
    assert_eq!(header(&resp, "location").as_deref(), Some("/x?y=1"));
    assert_eq!(header(&resp, "cache-control").as_deref(), Some("no-store"));
    assert!(header(&resp, "set-cookie").unwrap().contains("yerd-site=app"));
}

#[test]
fn clear_response_shape() {
    let resp = clear_response().unwrap();
    assert_eq!(resp.status, 303);
    assert_eq!(header(&resp, "location").as_deref(), Some("/"));
    assert_eq!(header(&resp, "cache-control").as_deref(), Some("no-store"));
    let set_cookie = header(&resp, "set-cookie").unwrap();
    assert!(set_cookie.contains("Max-Age=0"));
    assert!(set_cookie.contains("yerd-site=;"));
}

#[test]
fn picker_response_shape() {
    let plain = picker_response("<html></html>", false).unwrap();
    assert_eq!(plain.status, 200);
    assert_eq!(header(&plain, "cache-control").as_deref(), Some("no-store"));
    assert!(header(&plain, "content-type").unwrap().contains("text/html"));
    assert!(header(&plain, "set-cookie").is_none());

    let cleared = picker_response("<html></html>", true).unwrap();
    assert!(header(&cleared, "set-cookie").unwrap().contains("Max-Age=0"));
}

#[test]
fn unbound_not_found_clear_variant_carries_no_store_and_clear_cookie() {
    let cleared = unbound_not_found(true).unwrap();
    assert_eq!(cleared.status, 404);
    assert_eq!(header(&cleared, "cache-control").as_deref(), Some("no-store"));
    assert!(header(&cleared, "set-cookie").unwrap().contains("Max-Age=0"));

    let plain = unbound_not_found(false).unwrap();
    assert_eq!(plain.status, 404);
    assert_eq!(header(&plain, "cache-control").as_deref(), Some("no-store"));
    assert!(header(&plain, "set-cookie").is_none());
}

#[test]
fn bare_label_switch_resolves_like_header() {
    match classify("/~app/dash", None, None, None, HTML) {
        UnboundDecision::Switch { name, location } => {
            assert_eq!(name, "app");
            assert_eq!(location, "/dash");
        }
        other => panic!("expected Switch, got {}", variant(&other)),
    }
}

#[test]
fn join_path_query_appends_non_empty_query() {
    assert_eq!(join_path_query("/x", Some("a=1")), "/x?a=1");
}

#[test]
fn join_path_query_drops_empty_or_missing_query() {
    assert_eq!(join_path_query("/x", Some("")), "/x");
    assert_eq!(join_path_query("/x", None), "/x");
}

/// sanitize_dest collapses a protocol-relative remainder to same-origin.
#[test]
fn join_path_query_normalises_protocol_relative_path() {
    assert_eq!(join_path_query("//evil.com", None), "/evil.com");
    assert_eq!(join_path_query("//evil.com", Some("q=1")), "/evil.com?q=1");
}

#[test]
fn kind_label_maps_each_variant() {
    assert_eq!(kind_label(SiteKind::Parked), "parked");
    assert_eq!(kind_label(SiteKind::Linked), "linked");
}

#[test]
fn synthetic_error_is_backend_protocol() {
    let e = synthetic_error("boom");
    assert!(matches!(e, ProxyError::BackendProtocol { .. }));
    assert!(e.to_string().contains("backend protocol"));
}

#[test]
fn server_header_is_proxy_id() {
    assert_eq!(server_header(), PROXY_SERVER_ID);
}

#[test]
fn decide_picker_picks_for_html_get() {
    match decide_picker(true, "/x".to_owned(), false) {
        UnboundDecision::Picker { dest, clear } => {
            assert_eq!(dest, "/x");
            assert!(!clear);
        }
        _ => panic!("expected Picker"),
    }
}

#[test]
fn decide_picker_404s_for_non_html() {
    match decide_picker(false, "/x".to_owned(), true) {
        UnboundDecision::NotFound { clear } => assert!(clear),
        _ => panic!("expected NotFound"),
    }
}

#[test]
fn bad_request_response_shape() {
    let resp = bad_request_response();
    assert_eq!(resp.status, 400);
    assert_eq!(
        header(&resp, "server").as_deref(),
        Some(PROXY_SERVER_ID)
    );
    assert!(header(&resp, "content-type")
        .unwrap()
        .contains("text/plain"));
}

#[test]
fn not_found_response_shape() {
    let resp = not_found_response();
    assert_eq!(resp.status, 404);
    assert_eq!(
        header(&resp, "server").as_deref(),
        Some(PROXY_SERVER_ID)
    );
    assert!(header(&resp, "content-type")
        .unwrap()
        .contains("text/plain"));
}

#[test]
fn internal_error_response_shape() {
    let resp = internal_error_response();
    assert_eq!(resp.status, 500);
    assert_eq!(
        header(&resp, "server").as_deref(),
        Some(PROXY_SERVER_ID)
    );
    assert!(header(&resp, "content-type")
        .unwrap()
        .contains("text/plain"));
}

/// A control char in the Location makes `HeaderValue::from_str` fail,
/// exercising the synthetic_error map_err branch (otherwise unreachable
/// from the sanitised happy path).
#[test]
fn switch_response_rejects_invalid_location() {
    let err = switch_response("app", "/bad\nlocation").unwrap_err();
    assert!(matches!(err, ProxyError::BackendProtocol { .. }));
}

struct FakeConsumer {
    valid: bool,
    target_user: &'static str,
}
impl LoginTokenConsumer for FakeConsumer {
    fn consume(&self, _site: &str, _token: &str) -> Option<String> {
        if self.valid {
            Some(self.target_user.to_owned())
        } else {
            None
        }
    }
}

/// A consumer with real single-use semantics: valid exactly once.
struct OnceConsumer(std::sync::atomic::AtomicBool);
impl LoginTokenConsumer for OnceConsumer {
    fn consume(&self, _site: &str, _token: &str) -> Option<String> {
        if self.0.swap(false, std::sync::atomic::Ordering::SeqCst) {
            Some(String::new())
        } else {
            None
        }
    }
}

#[test]
fn valid_token_strips_query_and_returns_target_user() {
    let mut req = String::from("/wp-admin/?a=1&yerd_login_token=abc&b=2");
    let consumer = FakeConsumer {
        valid: true,
        target_user: "",
    };
    assert!(consume_login_token_if_present(&mut req, "blog", &consumer).is_some());
    assert_eq!(req, "/wp-admin/?a=1&b=2");
}

#[test]
fn valid_token_with_configured_user_returns_that_username() {
    let mut req = String::from("/wp-admin/?yerd_login_token=abc");
    let consumer = FakeConsumer {
        valid: true,
        target_user: "editor",
    };
    assert_eq!(
        consume_login_token_if_present(&mut req, "blog", &consumer).as_deref(),
        Some("editor")
    );
}

#[test]
fn path_outside_wp_admin_is_never_considered() {
    let mut req = String::from("/?yerd_login_token=abc");
    let consumer = FakeConsumer {
        valid: true,
        target_user: "",
    };
    assert!(consume_login_token_if_present(&mut req, "blog", &consumer).is_none());
    assert_eq!(req, "/?yerd_login_token=abc");
}

#[test]
fn missing_token_is_declined() {
    let mut req = String::from("/wp-admin/");
    let consumer = FakeConsumer {
        valid: true,
        target_user: "",
    };
    assert!(consume_login_token_if_present(&mut req, "blog", &consumer).is_none());
}

#[test]
fn invalid_token_leaves_query_untouched() {
    let mut req = String::from("/wp-admin/?yerd_login_token=abc");
    let consumer = FakeConsumer {
        valid: false,
        target_user: "",
    };
    assert!(consume_login_token_if_present(&mut req, "blog", &consumer).is_none());
    assert_eq!(req, "/wp-admin/?yerd_login_token=abc");
}

/// The same token presented twice must only work once.
#[test]
fn replayed_token_is_rejected_on_second_presentation() {
    let consumer = OnceConsumer(std::sync::atomic::AtomicBool::new(true));
    let mut req1 = String::from("/wp-admin/?yerd_login_token=abc");
    assert!(consume_login_token_if_present(&mut req1, "blog", &consumer).is_some());
    let mut req2 = String::from("/wp-admin/?yerd_login_token=abc");
    assert!(consume_login_token_if_present(&mut req2, "blog", &consumer).is_none());
    assert_eq!(
        req2,
        "/wp-admin/?yerd_login_token=abc",
        "a rejected replay must leave the query untouched, not strip it"
    );
}

fn one_site() -> SiteRouter {
    SiteRouter::from_sites("test", vec![Site::parked("app", "/srv/app")])
}

/// A cookie that carries no `yerd-site` pin must NOT clear anything and
/// must fall through to the no-pin picker/404 path.
#[test]
fn unparseable_cookie_falls_through_to_normal_classification() {
    let d = classify_unbound(
        &one_site(),
        "GET",
        "/dash",
        None,
        None,
        Some("session=abc; theme=dark"),
        Some("text/html"),
    );
    match d {
        UnboundDecision::Picker { dest, clear } => {
            assert_eq!(dest, "/dash");
            assert!(!clear);
        }
        other => panic!("expected Picker, got {other:?}"),
    }
}

/// POST with an HTML Accept is still not a browser navigation we render a
/// picker for, so it must 404 (no HTML to non-GET traffic).
#[test]
fn non_get_navigation_without_pin_is_not_found() {
    let d = classify_unbound(&one_site(), "POST", "/", None, None, None, Some("text/html"));
    assert!(matches!(d, UnboundDecision::NotFound { clear: false }));
}

/// The dotted `app.test` form resolves through `router.resolve` (not the
/// bare-label `get` fallback) and serves directly.
#[test]
fn header_domain_form_resolves_via_resolver() {
    let d = classify_unbound(
        &one_site(),
        "GET",
        "/",
        None,
        Some("app.test"),
        None,
        None,
    );
    match d {
        UnboundDecision::Serve(s) => assert_eq!(s.name, "app"),
        other => panic!("expected Serve, got {other:?}"),
    }
}
