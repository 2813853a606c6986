use yerd_proxy::cgi_params::SocketAddr;
use yerd_proxy::php::{
    forward_prelude, serve_php_fpm, PhpAction, PhpEvent, PhpRequest, PhpState, StaticOutcome,
};
use yerd_proxy::script_file::{Answer, Containment, Probe};
use yerd_proxy::sites::RouteRule;

/// What a request meets: files to serve, and scripts on disk.
#[derive(Default)]
struct World {
    served: Vec<(&'static str, &'static str)>,
    escaping: Vec<&'static str>,
    scripts: Vec<&'static str>,
    dirs: Vec<&'static str>,
    direct: bool,
}

impl World {
    fn serve(&self, what: &str) -> StaticOutcome<String> {
        if self.escaping.contains(&what) {
            return StaticOutcome::SymlinkEscape {
                requested_path: what.to_owned(),
                resolved: "/outside".to_owned(),
                allowed_root: "/site".to_owned(),
            };
        }
        match self.served.iter().find(|(path, _)| *path == what) {
            Some((_, body)) => StaticOutcome::Served((*body).to_owned()),
            None => StaticOutcome::NotFound,
        }
    }

    fn answer(&self, probe: Probe) -> Answer {
        match probe {
            Probe::Canonicalize(path) => Answer::Path(Some(path)),
            Probe::Locate { path, .. } => {
                let rel = path.strip_prefix("/site/").unwrap();
                if self.scripts.contains(&rel) || self.dirs.contains(&rel) {
                    Answer::Located(Some(Containment::Within(path)))
                } else {
                    Answer::Located(None)
                }
            }
            Probe::IsFile(path) => {
                Answer::Is(self.scripts.contains(&path.strip_prefix("/site/").unwrap()))
            }
            Probe::IsDirectory(path) => {
                Answer::Is(self.dirs.contains(&path.strip_prefix("/site/").unwrap()))
            }
        }
    }

    fn run(&self, method: &str, target: &str, rule: Option<(&str, &str)>) -> PhpAction<String> {
        let request = PhpRequest {
            method: method.to_owned(),
            target: target.to_owned(),
            served_root: "/site".to_owned(),
            allowed_root: "/site".to_owned(),
            route: rule.map(|(prefix, target)| RouteRule {
                prefix: prefix.to_owned(),
                target: target.to_owned(),
            }),
            symlink_protection: true,
        };
        let path = target.split('?').next().unwrap();
        let (mut state, mut action): (PhpState, PhpAction<String>) = serve_php_fpm();
        loop {
            let event = match action {
                PhpAction::TryServe => PhpEvent::Static(self.serve(path)),
                PhpAction::TryServeIndex(dir) => {
                    PhpEvent::Static(self.serve(&format!("{dir}|index")))
                }
                PhpAction::AskDirect => PhpEvent::Direct(self.direct),
                PhpAction::Ask(probe) => PhpEvent::Answered(self.answer(probe)),
                PhpAction::ServeTarget(rel) => {
                    PhpEvent::Static(self.serve(&format!("target:{rel}")))
                }
                decided => return decided,
            };
            (state, action) = state.step(&request, event);
        }
    }
}

fn forwarded(action: PhpAction<String>) -> (Option<String>, Option<String>, bool) {
    match action {
        PhpAction::Forward { script_rel, path_info, unusable_rule } => {
            (script_rel, path_info, unusable_rule)
        }
        other => panic!("expected a forward, got {other:?}"),
    }
}

fn text(s: &str) -> Option<String> {
    Some(s.to_owned())
}

#[test]
fn a_file_wins_over_everything() {
    let world = World {
        served: vec![("/api/openapi.json", "{}")],
        scripts: vec!["api/index.php"],
        direct: true,
        ..World::default()
    };
    let action = world.run("GET", "/api/openapi.json", Some(("/api", "api/index.php")));
    assert!(matches!(action, PhpAction::Respond(body) if body == "{}"));
}

#[test]
fn the_index_of_a_directory_comes_next() {
    let world = World { served: vec![("/|index", "home")], direct: true, ..World::default() };
    let action = world.run("GET", "/?x=1", None);
    assert!(matches!(action, PhpAction::Respond(body) if body == "home"));
}

#[test]
fn an_escaping_file_is_refused() {
    let world = World { escaping: vec!["/evil.txt"], ..World::default() };
    assert!(matches!(
        world.run("GET", "/evil.txt", None),
        PhpAction::Refuse { requested_path, resolved, allowed_root }
            if requested_path == "/evil.txt" && resolved == "/outside" && allowed_root == "/site"
    ));
    let world = World { escaping: vec!["target:index.html"], ..World::default() };
    assert!(matches!(
        world.run("GET", "/app/x", Some(("/app", "index.html"))),
        PhpAction::Refuse { .. }
    ));
}

#[test]
fn scripts_are_executed_directly_only_where_allowed() {
    let mut world = World { scripts: vec!["wp-login.php"], direct: true, ..World::default() };
    assert_eq!(
        forwarded(world.run("POST", "/wp-login.php", None)),
        (text("wp-login.php"), None, false)
    );
    world.direct = false;
    assert_eq!(forwarded(world.run("POST", "/wp-login.php", None)), (None, None, false));
}

#[test]
fn a_split_request_carries_its_path_info() {
    let world = World { scripts: vec!["theme/styles.php"], direct: true, ..World::default() };
    assert_eq!(
        forwarded(world.run("GET", "/theme/styles.php/moove//123/all", None)),
        (text("theme/styles.php"), text("/moove//123/all"), false)
    );
}

#[test]
fn a_directory_is_redirected_for_reads_in_direct_mode() {
    let mut world = World { dirs: vec!["sub"], direct: true, ..World::default() };
    for method in ["GET", "HEAD"] {
        match world.run(method, "/sub?x=1", Some(("/sub", "index.php"))) {
            PhpAction::Reply(Ok(reply)) => {
                assert_eq!(reply.status, 301);
                assert_eq!(reply.headers.get("location").unwrap(), "/sub/?x=1");
                assert_eq!(reply.headers.get("cache-control").unwrap(), "no-store");
            }
            other => panic!("expected a redirect, got {other:?}"),
        }
    }
    assert_eq!(forwarded(world.run("POST", "/sub", None)), (None, None, false));
    world.direct = false;
    assert_eq!(forwarded(world.run("GET", "/sub", None)), (None, None, false));
}

#[test]
fn a_rule_reaches_its_script_with_every_method() {
    let mut world = World { scripts: vec!["api/index.php"], ..World::default() };
    for (method, direct) in [("POST", true), ("GET", false), ("POST", false)] {
        world.direct = direct;
        assert_eq!(
            forwarded(world.run(method, "/api/user/login", Some(("/api", "api/index.php")))),
            (text("api/index.php"), None, false)
        );
    }
}

#[test]
fn a_rule_without_its_target_changes_nothing_but_the_log() {
    let world = World { direct: true, ..World::default() };
    assert_eq!(
        forwarded(world.run("GET", "/api/x", Some(("/api", "api/index.php")))),
        (None, None, true)
    );
    assert_eq!(
        forwarded(world.run("GET", "/app/x", Some(("/app", "index.html")))),
        (None, None, true)
    );
}

#[test]
fn a_static_rule_answers_reads_only() {
    let world = World { served: vec![("target:index.html", "spa")], ..World::default() };
    let rule = Some(("/", "index.html"));
    assert!(matches!(
        world.run("GET", "/dashboard", rule),
        PhpAction::Respond(body) if body == "spa"
    ));
    assert!(matches!(
        world.run("POST", "/dashboard", rule),
        PhpAction::Reply(Ok(reply)) if reply.status == 405
    ));
}

#[test]
fn without_a_rule_the_index_of_the_site_answers() {
    let world = World { served: vec![("/|index", "spa")], ..World::default() };
    assert!(matches!(
        world.run("GET", "/deep/link", None),
        PhpAction::Respond(body) if body == "spa"
    ));
}

/// An absolute request target such as `http://app.test?x=1` has an empty path, which is
/// the root; one that names an authority only has no path at all.
#[test]
fn a_request_without_a_path_is_one_for_the_root() {
    let index = World { served: vec![("/|index", "home")], ..World::default() };
    assert!(matches!(
        index.run("GET", "?x=1", Some(("/", "app.php"))),
        PhpAction::Respond(body) if body == "home"
    ));
    let script = World { scripts: vec!["index.php"], direct: true, ..World::default() };
    assert_eq!(forwarded(script.run("GET", "?x=1", None)), (text("index.php"), None, false));
    assert_eq!(forwarded(script.run("GET", "/?x=1", None)), (text("index.php"), None, false));
    assert_eq!(forwarded(script.run("CONNECT", "", None)), (None, None, false));
}

#[test]
fn a_decided_request_stays_decided() {
    let request = PhpRequest {
        method: "GET".to_owned(),
        target: "/".to_owned(),
        served_root: "/site".to_owned(),
        allowed_root: "/site".to_owned(),
        route: None,
        symlink_protection: true,
    };
    let (state, action) = PhpState::Closed.step::<()>(&request, PhpEvent::Direct(true));
    assert!(matches!((state, action), (PhpState::Closed, PhpAction::Idle)));
    let (state, action) = PhpState::File.step::<()>(&request, PhpEvent::Direct(true));
    assert!(matches!((state, action), (PhpState::Closed, PhpAction::Idle)));
}

#[test]
fn the_longest_request_is_decided_after_thirteen_events() {
    let request = PhpRequest {
        method: "GET".to_owned(),
        target: "/a.php/b.php".to_owned(),
        served_root: "/site".to_owned(),
        allowed_root: "/site".to_owned(),
        route: Some(RouteRule { prefix: "/".to_owned(), target: "c.php".to_owned() }),
        symlink_protection: true,
    };
    let (mut state, mut action): (PhpState, PhpAction<String>) = serve_php_fpm();
    for _ in 0..13 {
        let event = match action {
            PhpAction::TryServe | PhpAction::TryServeIndex(_) => {
                PhpEvent::Static(StaticOutcome::NotFound)
            }
            PhpAction::AskDirect => PhpEvent::Direct(true),
            PhpAction::Ask(Probe::Canonicalize(path)) => {
                PhpEvent::Answered(Answer::Path(Some(path)))
            }
            PhpAction::Ask(Probe::Locate { path, .. }) => {
                PhpEvent::Answered(Answer::Located(Some(Containment::Within(path))))
            }
            PhpAction::Ask(_) => PhpEvent::Answered(Answer::Is(false)),
            other => panic!("decided too early: {other:?}"),
        };
        (state, action) = state.step(&request, event);
    }
    assert!(matches!(state, PhpState::Closed));
    assert_eq!(forwarded(action), (None, None, true));
}

#[test]
fn a_forwarded_request_opens_with_its_parameters() {
    let addr = SocketAddr { ip: "127.0.0.1".to_owned(), port: 1 };
    let bytes = forward_prelude(
        "GET",
        "/x",
        &http::HeaderMap::new(),
        "/site",
        Some("x.php"),
        None,
        false,
        &addr,
        &addr,
        None,
    )
    .unwrap();
    assert_eq!(&bytes[..16], &[1, 1, 0, 1, 0, 8, 0, 0, 0, 1, 0, 0, 0, 0, 0, 0]);
    assert_eq!(bytes[17], 4);
    let find = |what: &[u8]| bytes.windows(what.len()).any(|w| w == what);
    assert!(find(b"\x0f\x0bSCRIPT_FILENAME/site/x.php"));
    assert!(find(b"\x0e\x03REQUEST_METHODGET"));
    assert_eq!(&bytes[bytes.len() - 8..], &[1, 4, 0, 1, 0, 0, 0, 0]);
}
