use yerd_proxy::dispatch::{
    backend_error, begin_routed, choose_backend, dispatch, handle_request, is_upgrade,
    open_backend, resolve_request, Backend, BackendStep, Begin, Endpoint, Listener, ProxyTarget,
    Request, Routed,
};
use yerd_proxy::error::ProxyError;
use yerd_proxy::fcgi_codec::FcgiError;
use yerd_proxy::login::{auto_login, consume_login_token_if_present, settle_login, LoginTokenConsumer};
use yerd_proxy::peers::{admits, is_lan_source, IpAddr};
use yerd_proxy::query::{get_param, strip_param};
use yerd_proxy::redirect::{build_redirect_uri, directory_redirect_location};
use yerd_proxy::replies::{
    https_redirect, method_not_allowed_response, moved_permanently, switch_response,
    trailing_slash_redirect, upgrade_not_supported,
};
use yerd_proxy::sites::{match_rule, HostProxy, Route, RouteRule, Site, SiteEntry, SiteRouter};
use yerd_proxy::try_files::{
    directory_candidate, path_of_request, static_candidate, target_or_root,
};
use yerd_proxy::unbound::{
    build_clear_cookie, build_set_cookie, is_clear_switch, is_loopback_host, join_path_query,
    parse_cookie_site, parse_switch, sanitize_dest,
};

fn rule(prefix: &str, target: &str) -> RouteRule {
    RouteRule { prefix: prefix.to_owned(), target: target.to_owned() }
}

fn router() -> SiteRouter {
    let mut secure = Site::linked("blog", "/srv/blog");
    secure.secure = true;
    secure.web_subpath = "public".to_owned();
    SiteRouter {
        tld: "test".to_owned(),
        sites: vec![
            SiteEntry {
                site: Site::parked("app", "/srv/app"),
                primary: None,
                proxy_rules: vec![rule("/ws", "http://127.0.0.1:6001")],
                route_rules: vec![rule("/api", "api/index.php"), rule("/", "index.html")],
            },
            SiteEntry {
                site: secure,
                primary: Some("blog.example".to_owned()),
                proxy_rules: Vec::new(),
                route_rules: Vec::new(),
            },
        ],
        proxies: vec![HostProxy {
            domain: "mail.test".to_owned(),
            target: "http://127.0.0.1:8025".to_owned(),
            secure: true,
        }],
    }
}

fn request(target: &str, fields: &[(&'static str, &str)]) -> Request {
    let mut headers = http::HeaderMap::new();
    for (name, value) in fields {
        headers.append(*name, value.parse().unwrap());
    }
    Request { method: "GET".to_owned(), target: target.to_owned(), headers }
}

fn value(reply: &http::HeaderMap, name: &str) -> Option<String> {
    reply.get(name).map(|v| v.to_str().unwrap().to_owned())
}

#[test]
fn hosts_resolve_without_port_dot_or_case() {
    let router = router();
    for host in ["app.test", "APP.Test:8080", "app.test.", "app.test.:443"] {
        assert_eq!(router.resolve(host), Some(0), "{host}");
    }
    assert_eq!(router.resolve("blog.example"), Some(1));
    assert_eq!(router.resolve("blog.test"), Some(1));
    assert_eq!(router.resolve("app"), None);
    assert_eq!(router.resolve("x.app.test"), None);
    assert_eq!(router.get("app"), Some(0));
    assert_eq!(router.get("app.test"), None);
    assert_eq!(router.find("app"), Some(0));
    assert_eq!(router.resolve_route("mail.test:80"), Some(Route::Proxy(0)));
    assert_eq!(router.resolve_route("app.test"), Some(Route::Php(0)));
    assert_eq!(router.resolve_route("ghost.test"), None);
}

#[test]
fn the_longest_prefix_wins() {
    let rules = vec![rule("/", "a"), rule("/api", "b"), rule("/api/v2/", "c"), rule("/api", "d")];
    assert_eq!(match_rule(&rules, "/x"), Some(0));
    assert_eq!(match_rule(&rules, "/api"), Some(1));
    assert_eq!(match_rule(&rules, "/api/v1"), Some(1));
    assert_eq!(match_rule(&rules, "/apix"), Some(0));
    assert_eq!(match_rule(&rules, "/api/v2"), Some(2));
    assert_eq!(match_rule(&rules, "/api/v2/x"), Some(2));
    assert_eq!(match_rule(&rules[1..].iter().map(|r| rule(&r.prefix, "")).collect(), "/"), None);
}

#[test]
fn a_request_without_a_host_is_refused() {
    for fields in [&[][..], &[("host", "caf\u{e9}.test")][..]] {
        match dispatch(&router(), &request("/", fields), Listener::Http, None).unwrap() {
            Begin::Respond(reply) => assert_eq!(reply.status, 400),
            other => panic!("expected a reply, got {other:?}"),
        }
    }
}

#[test]
fn an_unknown_host_is_not_found() {
    let begun = dispatch(&router(), &request("/", &[("host", "ghost.test")]), Listener::Http, None);
    match begun.unwrap() {
        Begin::Respond(reply) => {
            assert_eq!(reply.status, 404);
            assert_eq!(reply.body, b"No site matches this Host.\n");
            assert_eq!(value(&reply.headers, "cache-control"), None);
        }
        other => panic!("expected a reply, got {other:?}"),
    }
}

#[test]
fn a_site_is_planned_with_its_roots_and_its_rule() {
    let begun = dispatch(
        &router(),
        &request("/api/user?x=1", &[("host", "app.test")]),
        Listener::Http,
        Some(8443),
    );
    match begun.unwrap() {
        Begin::Backend(plan) => {
            assert_eq!(plan.site.name, "app");
            assert_eq!(plan.served_root, "/srv/app");
            assert_eq!(plan.allowed_root, "/srv/app");
            assert_eq!(plan.route.unwrap().target, "api/index.php");
            assert_eq!(plan.host, "app.test");
        }
        other => panic!("expected a plan, got {other:?}"),
    }
    let begun = dispatch(&router(), &request("/", &[("host", "blog.test")]), Listener::Https, None);
    match begun.unwrap() {
        Begin::Backend(plan) => {
            assert_eq!(plan.served_root, "/srv/blog/public");
            assert_eq!(plan.allowed_root, "/srv/blog");
            assert!(plan.route.is_none());
        }
        other => panic!("expected a plan, got {other:?}"),
    }
}

#[test]
fn a_request_without_a_path_is_routed_as_the_root() {
    let mut router = router();
    router.sites[0].route_rules = vec![rule("/api", "api/index.php"), rule("/", "home.html")];
    for target in ["?x=1", "/?x=1"] {
        let begun =
            dispatch(&router, &request(target, &[("host", "app.test")]), Listener::Http, None);
        match begun.unwrap() {
            Begin::Backend(plan) => assert_eq!(plan.route.unwrap().target, "home.html", "{target}"),
            other => panic!("expected a plan, got {other:?}"),
        }
    }
    let begun =
        dispatch(&router, &request("?x=1", &[("host", "localhost"), ("accept", "text/html")]), Listener::Http, None);
    match begun.unwrap() {
        Begin::Picker { dest, .. } => assert_eq!(dest, "/?x=1"),
        other => panic!("expected the picker, got {other:?}"),
    }
    let begun =
        dispatch(&router, &request("", &[("host", "blog.test")]), Listener::Http, Some(8443));
    match begun.unwrap() {
        Begin::Respond(reply) => assert_eq!(
            value(&reply.headers, "location").as_deref(),
            Some("https://blog.test:8443/")
        ),
        other => panic!("expected a reply, got {other:?}"),
    }
}

#[test]
fn paths_and_targets_of_requests() {
    for (target, path, rooted) in [
        ("/a?b", "/a", "/a?b"),
        ("?b", "/", "?b"),
        ("*", "*", "*"),
        ("", "", "/"),
    ] {
        assert_eq!(path_of_request(target), path);
        assert_eq!(target_or_root(target), rooted);
    }
    let uri: http::Uri = "http://app.test?b".parse().unwrap();
    assert_eq!(uri.path_and_query().unwrap().as_str(), "?b");
    assert_eq!(path_of_request("?b"), uri.path());
    let uri: http::Uri = "app.test:443".parse().unwrap();
    assert!(uri.path_and_query().is_none());
    assert_eq!(path_of_request(""), uri.path());
}

#[test]
fn a_proxy_rule_takes_the_request_over() {
    let begun =
        dispatch(&router(), &request("/ws/chat", &[("host", "app.test")]), Listener::Http, None);
    match begun.unwrap() {
        Begin::Forward(to) => {
            assert_eq!(to.target, "http://127.0.0.1:6001");
            assert_eq!(to.tld, "test");
        }
        other => panic!("expected a forward, got {other:?}"),
    }
}

#[test]
fn a_secure_site_sends_plain_http_to_https_with_its_token() {
    let plain = request("/wp-admin/?yerd_login_token=sekrit", &[("host", "blog.test")]);
    match dispatch(&router(), &plain, Listener::Http, Some(8443)).unwrap() {
        Begin::Respond(reply) => {
            assert_eq!(reply.status, 301);
            assert_eq!(
                value(&reply.headers, "location").as_deref(),
                Some("https://blog.test:8443/wp-admin/?yerd_login_token=sekrit")
            );
            assert_eq!(value(&reply.headers, "server").as_deref(), Some("yerd"));
        }
        other => panic!("expected a reply, got {other:?}"),
    }
    for (listener, port) in [(Listener::Https, Some(8443)), (Listener::Http, None)] {
        let begun = dispatch(&router(), &plain, listener, port).unwrap();
        assert!(matches!(begun, Begin::Backend(_)));
    }
}

#[test]
fn a_proxied_host_is_redirected_or_forwarded() {
    let plain = request("/", &[("host", "mail.test")]);
    match dispatch(&router(), &plain, Listener::Http, Some(443)).unwrap() {
        Begin::Respond(reply) => assert_eq!(
            value(&reply.headers, "location").as_deref(),
            Some("https://mail.test/")
        ),
        other => panic!("expected a reply, got {other:?}"),
    }
    match dispatch(&router(), &plain, Listener::Https, None).unwrap() {
        Begin::Forward(to) => assert_eq!(to.target, "http://127.0.0.1:8025"),
        other => panic!("expected a forward, got {other:?}"),
    }
}

#[test]
fn a_pinned_loopback_request_is_served_without_redirect() {
    let pinned = request("/x", &[("host", "localhost:80"), ("cookie", "a=b; yerd-site=blog")]);
    match resolve_request(&router(), &pinned, "localhost:80").unwrap() {
        Routed::Site { site, unbound, .. } => {
            assert_eq!(site.name, "blog");
            assert!(unbound);
        }
        other => panic!("expected a site, got {other:?}"),
    }
    let begun = dispatch(&router(), &pinned, Listener::Http, Some(443)).unwrap();
    assert!(matches!(begun, Begin::Backend(plan) if plan.site.name == "blog"));
    let header = request("/ws/x", &[("host", "127.0.0.1"), ("x-yerd-site", " app ")]);
    match resolve_request(&router(), &header, "127.0.0.1").unwrap() {
        Routed::Site { site, matched, .. } => {
            assert_eq!(site.name, "app");
            assert_eq!(matched.unwrap().target, "http://127.0.0.1:6001");
        }
        other => panic!("expected a site, got {other:?}"),
    }
}

#[test]
fn a_loopback_browser_is_offered_every_site() {
    let fields = [("host", "[::1]:8080"), ("accept", "text/html")];
    match resolve_request(&router(), &request("/d?q=1", &fields), "[::1]:8080").unwrap() {
        Routed::Picker { sites, dest, clear } => {
            assert_eq!(dest, "/d?q=1");
            assert!(!clear);
            let lines: Vec<_> = sites
                .iter()
                .map(|s| (s.name.as_str(), s.primary.as_str(), s.secure, s.kind))
                .collect();
            assert_eq!(
                lines,
                [
                    ("app", "app.test", false, "parked"),
                    ("blog", "blog.example", true, "linked")
                ]
            );
        }
        other => panic!("expected the page, got {other:?}"),
    }
}

#[test]
fn loopback_replies_set_and_drop_the_pin() {
    let reply = |target: &str| {
        match resolve_request(&router(), &request(target, &[("host", "localhost")]), "localhost") {
            Ok(Routed::Respond(reply)) => reply,
            other => panic!("expected a reply, got {other:?}"),
        }
    };
    let switch = reply("/~app.test/x?y=1");
    assert_eq!(switch.status, 303);
    assert_eq!(value(&switch.headers, "location").as_deref(), Some("/x?y=1"));
    assert_eq!(
        value(&switch.headers, "set-cookie").as_deref(),
        Some("yerd-site=app; Path=/; SameSite=Lax")
    );
    let clear = reply("/~");
    assert_eq!(value(&clear.headers, "location").as_deref(), Some("/"));
    let missing = reply("/app.css");
    assert_eq!(missing.status, 404);
    assert_eq!(value(&missing.headers, "cache-control").as_deref(), Some("no-store"));
}

#[test]
fn routed_replies_pass_through() {
    let begun = begin_routed(
        Routed::Picker { sites: Vec::new(), dest: "/".to_owned(), clear: true },
        Listener::Http,
        Some(1),
        "localhost",
        "/",
    );
    assert!(matches!(begun, Ok(Begin::Picker { clear: true, .. })));
    let begun = begin_routed(
        Routed::Proxy {
            forward: ProxyTarget { target: "t".to_owned(), tld: "test".to_owned() },
            secure: true,
        },
        Listener::Http,
        Some(1),
        "h",
        "/bad\n",
    );
    assert!(matches!(
        begun,
        Err(ProxyError::BackendProtocol { source }) if source == "invalid redirect URI"
    ));
}

#[test]
fn loopback_hosts() {
    for host in ["localhost", "LOCALHOST:1", "localhost.", "127.0.0.1:80", "[::1]", "[::1]:80"] {
        assert!(is_loopback_host(host), "{host}");
    }
    for host in ["", "local", "127.0.0.2", "::1", "[::1", "localhost.test"] {
        assert!(!is_loopback_host(host), "{host}");
    }
}

#[test]
fn switches_and_pins() {
    assert!(is_clear_switch("/~") && is_clear_switch("/~/"));
    assert!(!is_clear_switch("/~a") && !is_clear_switch("~"));
    assert_eq!(parse_switch("/~a.test"), Some(("a.test".to_owned(), String::new())));
    assert_eq!(parse_switch("/~a//b"), Some(("a".to_owned(), "//b".to_owned())));
    assert_eq!(parse_switch("/~/x"), None);
    assert_eq!(parse_switch("/x"), None);
    assert_eq!(parse_cookie_site("yerd-site=app").as_deref(), Some("app"));
    assert_eq!(parse_cookie_site("x=1;  yerd-site=b; yerd-site=c").as_deref(), Some("b"));
    assert_eq!(parse_cookie_site("yerd-site="), None);
    assert_eq!(parse_cookie_site("yerd-site"), None);
    assert_eq!(parse_cookie_site("xyerd-site=a"), None);
    assert_eq!(build_set_cookie("app"), "yerd-site=app; Path=/; SameSite=Lax");
    assert!(build_clear_cookie().contains("Max-Age=0"));
}

#[test]
fn destinations_stay_on_the_origin() {
    assert_eq!(sanitize_dest(""), "/");
    assert_eq!(sanitize_dest("/\\/evil.com/x"), "/evil.com/x");
    assert_eq!(sanitize_dest("/a//b"), "/a//b");
    assert_eq!(join_path_query("\\evil", Some("q=1")), "/evil?q=1");
}

#[test]
fn a_pin_that_no_header_can_hold_is_an_error() {
    assert!(matches!(
        switch_response("a\nb", "/"),
        Err(ProxyError::BackendProtocol { source }) if source == "invalid pin cookie"
    ));
    assert!(matches!(
        switch_response("a\nb", "/\u{7f}"),
        Err(ProxyError::BackendProtocol { source }) if source == "invalid switch location"
    ));
    assert!(switch_response("a", "/caf\u{e9}").is_ok());
}

#[test]
fn parameters_are_read_and_stripped() {
    assert_eq!(get_param(Some("a=1&b=2&a=3"), "a").as_deref(), Some("1"));
    assert_eq!(get_param(Some("a=1=2&b"), "a").as_deref(), Some("1=2"));
    assert_eq!(get_param(Some("a=1&b"), "b").as_deref(), Some(""));
    assert_eq!(get_param(Some("ab=1"), "a"), None);
    assert_eq!(get_param(None, "a"), None);
    assert_eq!(strip_param("/x?a=1&b=2&a", "a"), "/x?b=2");
    assert_eq!(strip_param("/x?a=1", "a"), "/x");
    assert_eq!(strip_param("/x", "a"), "/x");
    assert_eq!(strip_param("/x?b=?&c", "a"), "/x?b=?&c");
}

#[test]
fn redirect_locations() {
    assert_eq!(build_redirect_uri("a.test:8080", "/x?y", 443), "https://a.test/x?y");
    assert_eq!(build_redirect_uri("A.test", "/", 8443), "https://A.test:8443/");
    assert_eq!(build_redirect_uri("[::1]:80", "/", 8443), "https://[::1]:8443/");
    assert_eq!(directory_redirect_location("/sub"), "/sub/");
    assert_eq!(directory_redirect_location("/sub?x=1"), "/sub/?x=1");
    assert_eq!(directory_redirect_location("//sub?"), "/sub/?");
    for target in ["/sub?x=1", "//a/b", "/my%20dir"] {
        let location = directory_redirect_location(target);
        assert_eq!(directory_candidate(&location), static_candidate(target));
        assert_eq!(static_candidate(&location), None);
    }
}

#[test]
fn redirect_replies() {
    let reply = trailing_slash_redirect("/sub?x=1").unwrap();
    assert_eq!(reply.status, 301);
    assert_eq!(value(&reply.headers, "location").as_deref(), Some("/sub/?x=1"));
    assert_eq!(value(&reply.headers, "cache-control").as_deref(), Some("no-store"));
    let reply = https_redirect("a.test", "/x", 8443).unwrap();
    assert_eq!(value(&reply.headers, "location").as_deref(), Some("https://a.test:8443/x"));
    assert_eq!(value(&reply.headers, "cache-control"), None);
    let reply = moved_permanently("/y").unwrap();
    assert!(reply.body.is_empty());
    assert_eq!(reply.headers.len(), 2);
    assert!(moved_permanently("/\r").is_err());
}

#[test]
fn every_reply_names_the_proxy() {
    let refused = method_not_allowed_response();
    assert_eq!(refused.status, 405);
    assert_eq!(value(&refused.headers, "allow").as_deref(), Some("GET, HEAD"));
    assert!(refused.body.starts_with(b"405 Method Not Allowed\n\nThis path is served by a"));
    for headers in [
        &refused.headers,
        &upgrade_not_supported().headers,
        &moved_permanently("/").unwrap().headers,
        &switch_response("a", "/").unwrap().headers,
    ] {
        assert_eq!(value(headers, "server").as_deref(), Some("yerd"));
    }
}

#[test]
fn an_error_becomes_a_500() {
    let reply = handle_request(Err(ProxyError::Setup { source: "x".to_owned() }));
    assert_eq!(reply.status, 500);
    assert_eq!(reply.body, b"Proxy internal error.\n");
    assert_eq!(handle_request(moved_permanently("/")).status, 301);
}

fn upgrade_headers() -> http::HeaderMap {
    request("/", &[("connection", "keep-alive, Upgrade"), ("upgrade", "websocket")]).headers
}

#[test]
fn upgrades_need_both_fields() {
    assert!(is_upgrade(&upgrade_headers()));
    assert!(!is_upgrade(&request("/", &[("connection", "upgrade")]).headers));
    assert!(!is_upgrade(&request("/", &[("upgrade", "websocket")]).headers));
    assert!(!is_upgrade(&request("/", &[("connection", "x"), ("upgrade", "y")]).headers));
}

#[test]
fn backends_are_chosen() {
    let none = http::HeaderMap::new();
    let franken = || Ok(Backend::FrankenPhp { addr: "a:1".to_owned() });
    let fpm = || Ok(Backend::PhpFpm { socket: "/run/fpm".to_owned() });
    assert!(matches!(
        choose_backend("h", &none, franken()),
        Ok(BackendStep::Http { addr }) if addr == "a:1"
    ));
    assert!(matches!(
        choose_backend("h", &upgrade_headers(), franken()),
        Ok(BackendStep::Upgrade { .. })
    ));
    assert!(matches!(
        choose_backend("h", &none, fpm()),
        Ok(BackendStep::Php(Backend::PhpFpm { .. }))
    ));
    assert!(matches!(
        choose_backend("h", &upgrade_headers(), fpm()),
        Ok(BackendStep::Respond(reply)) if reply.status == 501
    ));
    assert!(matches!(
        choose_backend("h", &none, Err(ProxyError::Fcgi { source: FcgiError::Truncated })),
        Err(ProxyError::BackendResolver { host, source })
            if host == "h" && source == "FastCGI error: truncated record header"
    ));
}

#[test]
fn backend_errors_that_say_why_are_kept() {
    assert!(matches!(
        backend_error("h", ProxyError::BackendConnect { backend: "b".into(), source: "s".into() }),
        ProxyError::BackendConnect { backend, .. } if backend == "b"
    ));
    assert!(matches!(
        backend_error("h", ProxyError::BackendProtocol { source: "s".into() }),
        ProxyError::BackendProtocol { .. }
    ));
    let e = backend_error("h", ProxyError::BackendResolver { host: "o".into(), source: "s".into() });
    assert_eq!(e.to_string(), "no backend for o: s");
}

#[test]
fn endpoints_of_backends() {
    let tcp = Backend::PhpFpmTcp { addr: "127.0.0.1:9000".to_owned() };
    assert!(matches!(open_backend(&tcp), Ok(Endpoint::Tcp(a)) if a == "127.0.0.1:9000"));
    let unix = Backend::PhpFpm { socket: "/run/fpm".to_owned() };
    assert!(matches!(open_backend(&unix), Ok(Endpoint::Unix(s)) if s == "/run/fpm"));
    let franken = Backend::FrankenPhp { addr: "x".to_owned() };
    assert!(open_backend(&franken).unwrap_err().contains("dispatch bug"));
}

struct Pair;
impl LoginTokenConsumer for Pair {
    fn consume(&self, site: &str, token: &str) -> Option<String> {
        if site == "blog" && token == "sekrit" {
            Some("editor".to_owned())
        } else {
            None
        }
    }
}

#[test]
fn a_token_is_good_for_its_site_only() {
    let mut target = "/wp-admin/?yerd_login_token=sekrit".to_owned();
    assert_eq!(consume_login_token_if_present(&mut target, "shop", &Pair), None);
    assert_eq!(target, "/wp-admin/?yerd_login_token=sekrit");
    assert_eq!(
        consume_login_token_if_present(&mut target, "blog", &Pair).as_deref(),
        Some("editor")
    );
    assert_eq!(target, "/wp-admin/");
}

#[test]
fn a_login_is_settled_by_what_came_back() {
    let settle = |user: Option<&str>, parsed: Option<Option<&str>>| {
        settle_login("/t", user.map(str::to_owned), parsed.map(|p| p.map(str::to_owned)))
    };
    assert_eq!(settle(None, Some(Some("/x"))), ("/t".to_owned(), None));
    assert_eq!(settle(Some("u"), Some(Some("/x"))), ("/x".to_owned(), Some("u".to_owned())));
    assert_eq!(settle(Some("u"), Some(None)), ("/".to_owned(), Some("u".to_owned())));
    assert_eq!(settle(Some("u"), None), ("/t".to_owned(), Some("u".to_owned())));
}

#[test]
fn a_login_needs_a_user_and_a_script() {
    let user = Some("u".to_owned());
    let login = auto_login(&user, Some("/p.php")).unwrap();
    assert_eq!((login.target_user, login.prepend_script), ("u", "/p.php"));
    assert!(auto_login(&user, None).is_none());
    assert!(auto_login(&None, Some("/p.php")).is_none());
}

#[test]
fn only_local_sources_pass_the_filter() {
    for local in [
        [127, 0, 0, 1],
        [10, 255, 0, 1],
        [172, 16, 0, 1],
        [172, 31, 9, 9],
        [192, 168, 1, 1],
        [169, 254, 0, 1],
    ] {
        assert!(is_lan_source(IpAddr::V4(local)), "{local:?}");
    }
    for other in [[8, 8, 8, 8], [172, 15, 0, 1], [172, 32, 0, 1], [192, 167, 0, 1], [169, 253, 0, 1]] {
        assert!(!is_lan_source(IpAddr::V4(other)), "{other:?}");
        assert!(admits(false, IpAddr::V4(other)));
        assert!(!admits(true, IpAddr::V4(other)));
    }
    assert!(is_lan_source(IpAddr::V6([0, 0, 0, 0, 0, 0, 0, 1])));
    assert!(is_lan_source(IpAddr::V6([0xfe80, 0, 0, 0, 0, 0, 0, 9])));
    assert!(is_lan_source(IpAddr::V6([0, 0, 0, 0, 0, 0xffff, 0x0a00, 1])));
    assert!(!is_lan_source(IpAddr::V6([0, 0, 0, 0, 0, 0xffff, 0x0808, 0x0808])));
    assert!(!is_lan_source(IpAddr::V6([0x2001, 0xdb8, 0, 0, 0, 0, 0, 1])));
    assert!(!is_lan_source(IpAddr::V6([0, 0, 0, 0, 0, 0, 0, 2])));
}
