//! From a request to what serves it: a site, a proxied host, or a reply of the proxy's
//! own.

use vstd::prelude::*;

use crate::cgi_params::{opt_view, split_path_query};
use crate::error::{error_text, ProxyError};
use crate::exchange::{connection_names, connection_tokens};
use crate::headers::{
    fields_of, first_text, header_get, header_groups, header_text, lemma_lookup, values_of,
};
use crate::query::query_of;
use crate::redirect::redirect_uri;
use crate::replies::{
    bad_request_response, clear_response, https_redirect, internal_error_response, is_moved,
    is_reply, is_switch, not_found_response, pin_fields, plain_fields, switch_response,
    unbound_not_found, uncached_fields, upgrade_not_supported, Response,
};
use crate::sites::{
    best_rule, default_domain, default_domain_of, host_name, lemma_name_is_found, match_rule,
    proxy_for, resolved_site, served_root_of, site_named, EntryView, Route, RouteRule, RouterView,
    RuleView, Site, SiteEntry, SiteRouter, SiteView,
};
use crate::text::{has_char, lower, lower_str, str_eq, views};
use crate::try_files::{path_of_request, request_path, rooted_target, target_or_root};
use crate::unbound::{
    classify_unbound, is_loopback_host, kind_label, kind_word, law_unbound_decisions, loopback,
    site_directive, site_header_value, unbound_decision, DecisionView, UnboundDecision,
};

verus! {

/// Which listener a connection came in on.
#[derive(Debug, Clone, Copy, PartialEq, Eq, Structural)]
pub enum Listener {
    /// Plain HTTP.
    Http,
    /// HTTPS.
    Https,
}

/// What routing reads of a request.
#[derive(Debug)]
pub struct Request {
    /// The method.
    pub method: String,
    /// The path and query, empty where the request has none.
    pub target: String,
    /// The header fields.
    pub headers: http::HeaderMap<http::HeaderValue>,
}

/// An upstream, and the top domain of the sites.
#[derive(Debug)]
pub struct ProxyTarget {
    /// The upstream.
    pub target: String,
    /// The top domain.
    pub tld: String,
}

/// What a [`ProxyTarget`] is.
pub struct TargetView {
    /// The upstream.
    pub target: Seq<char>,
    /// The top domain.
    pub tld: Seq<char>,
}

impl View for ProxyTarget {
    type V = TargetView;

    open spec fn view(&self) -> TargetView {
        TargetView { target: self.target@, tld: self.tld@ }
    }
}

/// One line of the page to pick a site from.
#[derive(Debug)]
pub struct PickerSite {
    /// The site's name.
    pub name: String,
    /// The host name that it is known by first.
    pub primary: String,
    /// Whether it is secure.
    pub secure: bool,
    /// The word for its kind.
    pub kind: &'static str,
}

/// What a [`PickerSite`] is.
pub struct PickerView {
    /// The site's name.
    pub name: Seq<char>,
    /// The host name that it is known by first.
    pub primary: Seq<char>,
    /// Whether it is secure.
    pub secure: bool,
    /// The word for its kind.
    pub kind: Seq<char>,
}

impl View for PickerSite {
    type V = PickerView;

    open spec fn view(&self) -> PickerView {
        PickerView {
            name: self.name@,
            primary: self.primary@,
            secure: self.secure,
            kind: self.kind@,
        }
    }
}

/// The lines of the page to pick a site from.
pub open spec fn picker_lines(router: RouterView) -> Seq<PickerView> {
    router.sites.map_values(
        |e: EntryView|
            PickerView {
                name: e.site.name,
                primary: match e.primary {
                    Some(p) => p,
                    None => default_domain(e.site.name, router.tld),
                },
                secure: e.site.secure,
                kind: kind_word(e.site.kind),
            },
    )
}

/// What a request is routed to.
#[derive(Debug)]
pub enum Routed {
    /// A PHP site.
    Site {
        /// The site.
        site: Site,
        /// Whether it was reached without its host name. Then it is not redirected to
        /// HTTPS.
        unbound: bool,
        /// The upstream of a proxy rule that takes the request over.
        matched: Option<ProxyTarget>,
        /// The routing rule that applies where no file answers.
        route: Option<RouteRule>,
    },
    /// A host that is proxied as a whole.
    Proxy {
        /// The upstream.
        forward: ProxyTarget,
        /// Whether plain HTTP is redirected.
        secure: bool,
    },
    /// The page to pick a site from.
    Picker {
        /// Its lines.
        sites: Vec<PickerSite>,
        /// Where to go once a site is picked.
        dest: String,
        /// Whether a stale pin is dropped.
        clear: bool,
    },
    /// A reply of the proxy's own.
    Respond(Response<Vec<u8>>),
}

/// The upstream of the proxy rule that takes a path over.
pub open spec fn matched_target(entry: EntryView, tld: Seq<char>, path: Seq<char>) -> Option<
    TargetView,
> {
    match best_rule(entry.proxy_rules, path) {
        Some(i) => Some(TargetView { target: entry.proxy_rules[i].target, tld }),
        None => None,
    }
}

/// The routing rule that a path meets.
pub open spec fn matched_route(entry: EntryView, path: Seq<char>) -> Option<RuleView> {
    match best_rule(entry.route_rules, path) {
        Some(i) => Some(entry.route_rules[i]),
        None => None,
    }
}

/// The view of an optional upstream.
pub open spec fn target_view(t: Option<ProxyTarget>) -> Option<TargetView> {
    match t {
        Some(t) => Some(t@),
        None => None,
    }
}

/// The view of an optional rule.
pub open spec fn rule_view(t: Option<RouteRule>) -> Option<RuleView> {
    match t {
        Some(t) => Some(t@),
        None => None,
    }
}

/// Whether `r` serves the site `entry`.
pub open spec fn is_site(
    r: Result<Routed, ProxyError>,
    entry: EntryView,
    tld: Seq<char>,
    path: Seq<char>,
    is_unbound: bool,
) -> bool {
    match r {
        Ok(Routed::Site { site, unbound, matched, route }) => {
            &&& site@ == entry.site
            &&& unbound == is_unbound
            &&& target_view(matched) == matched_target(entry, tld, path)
            &&& rule_view(route) == matched_route(entry, path)
        },
        _ => false,
    }
}

/// The entry of the site that an unbound request is served by.
pub open spec fn entry_of(router: RouterView, site: SiteView) -> EntryView {
    router.sites[site_named(router, site.name, 0)->0]
}

/// Whether `r` is what an unbound request comes to.
pub open spec fn is_unbound_outcome(
    r: Result<Routed, ProxyError>,
    router: RouterView,
    path: Seq<char>,
    decision: DecisionView,
) -> bool {
    match decision {
        DecisionView::Serve(site) => match r {
            Ok(Routed::Site { site: served, unbound, matched, route }) => {
                &&& served@ == site
                &&& unbound
                &&& target_view(matched) == matched_target(
                    entry_of(router, site),
                    router.tld,
                    path,
                )
                &&& rule_view(route) == matched_route(entry_of(router, site), path)
            },
            _ => false,
        },
        DecisionView::Switch(name, location) => match r {
            Ok(Routed::Respond(reply)) => is_switch(Ok(reply), name, location),
            Err(e) => is_switch(Err(e), name, location),
            _ => false,
        },
        DecisionView::Picker(to, drop_pin) => match r {
            Ok(Routed::Picker { sites, dest, clear }) => {
                &&& sites@.map_values(|s: PickerSite| s@) == picker_lines(router)
                &&& dest@ == to
                &&& clear == drop_pin
            },
            _ => false,
        },
        DecisionView::NotFound(clear) => match r {
            Ok(Routed::Respond(reply)) => is_reply(
                reply,
                404,
                uncached_fields("text/plain; charset=utf-8"@, clear),
                "No site matches this Host.\n"@,
            ),
            _ => false,
        },
        DecisionView::ClearPin => match r {
            Ok(Routed::Respond(reply)) => is_reply(
                reply,
                303,
                pin_fields("/"@, "yerd-site=; Path=/; Max-Age=0; SameSite=Lax"@),
                Seq::empty(),
            ),
            _ => false,
        },
    }
}

/// Whether `r` is what a request is routed to: by its host to a site, else to a proxied
/// host; on a loopback host as [`unbound_decision`] says; and else to nothing.
pub open spec fn is_routed(
    r: Result<Routed, ProxyError>,
    router: RouterView,
    request: Request,
    host: Seq<char>,
) -> bool {
    let path = request_path(request.target@);
    let groups = header_groups(request.headers);
    match (resolved_site(router, host), proxy_for(router, host_name(host), 0)) {
        (Some(i), _) => is_site(r, router.sites[i], router.tld, path, false),
        (None, Some(i)) => match r {
            Ok(Routed::Proxy { forward, secure }) => {
                &&& forward@ == (TargetView { target: router.proxies[i].target, tld: router.tld })
                &&& secure == router.proxies[i].secure
            },
            _ => false,
        },
        (None, None) => if loopback(host) {
            is_unbound_outcome(
                r,
                router,
                path,
                unbound_decision(
                    router,
                    request.method@,
                    path,
                    query_of(request.target@),
                    site_directive(groups),
                    first_text(groups, "cookie"@),
                    first_text(groups, "accept"@),
                ),
            )
        } else {
            match r {
                Ok(Routed::Respond(reply)) => is_reply(
                    reply,
                    404,
                    plain_fields(),
                    "No site matches this Host.\n"@,
                ),
                _ => false,
            }
        },
    }
}

/// The routing of a request to the site `entry`.
fn route_site(entry: &SiteEntry, tld: &str, path: &str, unbound: bool) -> (r: Routed)
    ensures
        is_site(Ok(r), entry@, tld@, path@, unbound),
{
    let matched: Option<ProxyTarget> = match match_rule(&entry.proxy_rules, path) {
        Some(i) => {
            assert(entry@.proxy_rules[i as int] == entry.proxy_rules@[i as int]@);
            Some(
                ProxyTarget {
                    target: entry.proxy_rules[i].target.clone(),
                    tld: tld.to_owned(),
                },
            )
        },
        None => None,
    };
    let route: Option<RouteRule> = match match_rule(&entry.route_rules, path) {
        Some(i) => {
            assert(entry@.route_rules[i as int] == entry.route_rules@[i as int]@);
            Some(entry.route_rules[i].clone())
        },
        None => None,
    };
    Routed::Site { site: entry.site.clone(), unbound, matched, route }
}

/// The lines of the page to pick a site from.
fn picker_sites(router: &SiteRouter) -> (r: Vec<PickerSite>)
    ensures
        r@.map_values(|s: PickerSite| s@) == picker_lines(router@),
{
    let mut lines: Vec<PickerSite> = Vec::new();
    let ghost all = picker_lines(router@);
    let mut i: usize = 0;
    assert(lines@.map_values(|s: PickerSite| s@) =~= all.take(0));
    while i < router.sites.len()
        invariant
            i <= router.sites@.len(),
            all == picker_lines(router@),
            lines@.map_values(|s: PickerSite| s@) == all.take(i as int),
        decreases router.sites@.len() - i,
    {
        let entry: &SiteEntry = &router.sites[i];
        assert(router@.sites[i as int] == entry@);
        let primary: String = match &entry.primary {
            Some(p) => p.clone(),
            None => default_domain_of(entry.site.name.as_str(), router.tld.as_str()),
        };
        let line: PickerSite = PickerSite {
            name: entry.site.name.clone(),
            primary,
            secure: entry.site.secure,
            kind: kind_label(entry.site.kind),
        };
        assert(line@ == all[i as int]);
        let ghost before = lines@.map_values(|s: PickerSite| s@);
        let ghost added = line@;
        lines.push(line);
        i = i + 1;
        assert(lines@.map_values(|s: PickerSite| s@) =~= before.push(added));
        assert(all.take(i as int) =~= before.push(added));
    }
    assert(all.take(i as int) =~= all);
    lines
}

/// Resolve a request to what serves it. The host is tried first; a loopback host that
/// names nothing falls back to the unbound rules.
pub fn resolve_request(router: &SiteRouter, request: &Request, host: &str) -> (r: Result<
    Routed,
    ProxyError,
>)
    ensures
        is_routed(r, router@, *request, host@),
{
    let path: String = path_of_request(request.target.as_str());
    let (_, query) = split_path_query(request.target.as_str());
    match router.resolve_route(host) {
        Some(Route::Php(i)) => {
            assert(router@.sites[i as int] == router.sites@[i as int]@);
            return Ok(route_site(&router.sites[i], router.tld.as_str(), path.as_str(), false));
        },
        Some(Route::Proxy(i)) => {
            assert(router@.proxies[i as int] == router.proxies@[i as int]@);
            return Ok(
                Routed::Proxy {
                    forward: ProxyTarget {
                        target: router.proxies[i].target.clone(),
                        tld: router.tld.clone(),
                    },
                    secure: router.proxies[i].secure,
                },
            );
        },
        None => {},
    }
    if !is_loopback_host(host) {
        return Ok(Routed::Respond(not_found_response()));
    }
    proof {
        reveal_strlit("cookie");
        reveal_strlit("accept");
        lemma_lookup("cookie"@);
        lemma_lookup("accept"@);
    }
    let site_header: Option<String> = site_header_value(&request.headers);
    let cookie: Option<String> = header_text(&request.headers, "cookie");
    let accept: Option<String> = header_text(&request.headers, "accept");
    let query: Option<&str> = if has_char(request.target.as_str(), '?') {
        Some(query.as_str())
    } else {
        None
    };
    let decision: UnboundDecision = classify_unbound(
        router,
        request.method.as_str(),
        path.as_str(),
        query,
        as_str_opt(&site_header),
        as_str_opt(&cookie),
        as_str_opt(&accept),
    );
    match decision {
        UnboundDecision::Serve(site) => {
            proof {
                law_unbound_decisions(
                    router@,
                    request.method@,
                    path@,
                    query_of(request.target@),
                    site_directive(header_groups(request.headers)),
                    first_text(header_groups(request.headers), "cookie"@),
                    first_text(header_groups(request.headers), "accept"@),
                );
                let i = choose|i: int|
                    0 <= i < router@.sites.len() && (#[trigger] router@.sites[i]).site == site@;
                lemma_name_is_found(router@, site@.name, 0, i);
            }
            match router.get(site.name.as_str()) {
                Some(i) => {
                    assert(router@.sites[i as int] == router.sites@[i as int]@);
                    match route_site(
                        &router.sites[i],
                        router.tld.as_str(),
                        path.as_str(),
                        true,
                    ) {
                        Routed::Site { matched, route, .. } => Ok(
                            Routed::Site { site, unbound: true, matched, route },
                        ),
                        other => Ok(other),
                    }
                },
                None => Ok(Routed::Respond(not_found_response())),
            }
        },
        UnboundDecision::Switch { name, location } => match switch_response(
            name.as_str(),
            location.as_str(),
        ) {
            Ok(reply) => Ok(Routed::Respond(reply)),
            Err(e) => Err(e),
        },
        UnboundDecision::Picker { dest, clear } => Ok(
            Routed::Picker { sites: picker_sites(router), dest, clear },
        ),
        UnboundDecision::NotFound { clear } => match unbound_not_found(clear) {
            Ok(reply) => Ok(Routed::Respond(reply)),
            Err(e) => Err(e),
        },
        UnboundDecision::ClearPin => match clear_response() {
            Ok(reply) => Ok(Routed::Respond(reply)),
            Err(e) => Err(e),
        },
    }
}

/// A borrowed optional string.
fn as_str_opt(s: &Option<String>) -> (r: Option<&str>)
    ensures
        opt_view(r) == (match *s {
            Some(s) => Some(s@),
            None => None,
        }),
{
    match s {
        Some(s) => Some(s.as_str()),
        None => None,
    }
}

/// What a request for a PHP site needs from here on.
#[derive(Debug)]
pub struct SitePlan {
    /// The `Host` value.
    pub host: String,
    /// The site.
    pub site: Site,
    /// The directory that it serves.
    pub served_root: String,
    /// The root that nothing may lead out of.
    pub allowed_root: String,
    /// The routing rule that applies where no file answers.
    pub route: Option<RouteRule>,
}

/// What is to be done with a request, before a backend is involved.
#[derive(Debug)]
pub enum Begin {
    /// Answer with this reply.
    Respond(Response<Vec<u8>>),
    /// Show the page to pick a site from.
    Picker {
        /// Its lines.
        sites: Vec<PickerSite>,
        /// Where to go once a site is picked.
        dest: String,
        /// Whether a stale pin is dropped.
        clear: bool,
    },
    /// Forward to an upstream.
    Forward(ProxyTarget),
    /// Find the backend of a site.
    Backend(SitePlan),
}

/// Whether a plain HTTP request is sent to HTTPS, and to which port.
pub open spec fn upgraded_port(
    listener: Listener,
    unbound: bool,
    secure: bool,
    redirect_port: Option<u16>,
) -> Option<u16> {
    if listener == Listener::Http && !unbound && secure {
        redirect_port
    } else {
        None
    }
}

/// Whether `r` is how a request that was routed to `routed` begins.
pub open spec fn is_begun(
    r: Result<Begin, ProxyError>,
    routed: Routed,
    listener: Listener,
    redirect_port: Option<u16>,
    host: Seq<char>,
    target: Seq<char>,
) -> bool {
    match routed {
        Routed::Respond(reply) => r == Ok::<Begin, ProxyError>(Begin::Respond(reply)),
        Routed::Picker { sites, dest, clear } => r == Ok::<Begin, ProxyError>(
            Begin::Picker { sites, dest, clear },
        ),
        Routed::Proxy { forward, secure } => match upgraded_port(
            listener,
            false,
            secure,
            redirect_port,
        ) {
            Some(port) => is_redirected(r, host, target, port),
            None => r == Ok::<Begin, ProxyError>(Begin::Forward(forward)),
        },
        Routed::Site { site, unbound, matched, route } => match upgraded_port(
            listener,
            unbound,
            site.secure,
            redirect_port,
        ) {
            Some(port) => is_redirected(r, host, target, port),
            None => match matched {
                Some(forward) => r == Ok::<Begin, ProxyError>(Begin::Forward(forward)),
                None => match r {
                    Ok(Begin::Backend(plan)) => {
                        &&& plan.host@ == host
                        &&& plan.site@ == site@
                        &&& plan.served_root@ == served_root_of(site@)
                        &&& plan.allowed_root@ == site.document_root@
                        &&& plan.route == route
                    },
                    _ => false,
                },
            },
        },
    }
}

/// Whether `r` is the redirect to HTTPS.
pub open spec fn is_redirected(
    r: Result<Begin, ProxyError>,
    host: Seq<char>,
    target: Seq<char>,
    port: u16,
) -> bool {
    match r {
        Ok(Begin::Respond(reply)) => is_moved(Ok(reply), redirect_uri(host, target, port), false),
        Err(e) => is_moved(Err(e), redirect_uri(host, target, port), false),
        _ => false,
    }
}

/// The redirect to HTTPS.
fn redirected(host: &str, target: &str, port: u16) -> (r: Result<Begin, ProxyError>)
    ensures
        is_redirected(r, host@, target@, port),
{
    match https_redirect(host, target, port) {
        Ok(reply) => Ok(Begin::Respond(reply)),
        Err(e) => Err(e),
    }
}

/// How a request that was routed begins: a secure host sends plain HTTP to HTTPS
/// first, and only then does a proxy rule or the site itself come into play.
pub fn begin_routed(
    routed: Routed,
    listener: Listener,
    redirect_port: Option<u16>,
    host: &str,
    target: &str,
) -> (r: Result<Begin, ProxyError>)
    ensures
        is_begun(r, routed, listener, redirect_port, host@, target@),
{
    match routed {
        Routed::Respond(reply) => Ok(Begin::Respond(reply)),
        Routed::Picker { sites, dest, clear } => Ok(Begin::Picker { sites, dest, clear }),
        Routed::Proxy { forward, secure } => {
            if listener == Listener::Http && secure {
                if let Some(port) = redirect_port {
                    return redirected(host, target, port);
                }
            }
            Ok(Begin::Forward(forward))
        },
        Routed::Site { site, unbound, matched, route } => {
            if listener == Listener::Http && !unbound && site.secure {
                if let Some(port) = redirect_port {
                    return redirected(host, target, port);
                }
            }
            match matched {
                Some(forward) => Ok(Begin::Forward(forward)),
                None => {
                    let served_root: String = site.served_root();
                    let allowed_root: String = site.document_root.clone();
                    Ok(
                        Begin::Backend(
                            SitePlan {
                                host: host.to_owned(),
                                site,
                                served_root,
                                allowed_root,
                                route,
                            },
                        ),
                    )
                },
            }
        },
    }
}

/// Whether `r` is how a request begins: without a readable host it is refused, and else
/// routed.
pub open spec fn is_dispatched(
    r: Result<Begin, ProxyError>,
    router: RouterView,
    request: Request,
    listener: Listener,
    redirect_port: Option<u16>,
) -> bool {
    match first_text(header_groups(request.headers), "host"@) {
        None => match r {
            Ok(Begin::Respond(reply)) => is_reply(
                reply,
                400,
                plain_fields(),
                "Missing or invalid Host header.\n"@,
            ),
            _ => false,
        },
        Some(host) => {
            ||| exists|routed: Routed| #[trigger]
                is_routed(Ok(routed), router, request, host) && is_begun(
                    r,
                    routed,
                    listener,
                    redirect_port,
                    host,
                    rooted_target(request.target@),
                )
            ||| r is Err && is_routed(Err(r->Err_0), router, request, host)
        },
    }
}

/// Begin a request: without a readable host it is refused, and else routed.
pub fn dispatch(
    router: &SiteRouter,
    request: &Request,
    listener: Listener,
    redirect_port: Option<u16>,
) -> (r: Result<Begin, ProxyError>)
    ensures
        is_dispatched(r, router@, *request, listener, redirect_port),
{
    proof {
        reveal_strlit("host");
        lemma_lookup("host"@);
    }
    let host: String = match header_text(&request.headers, "host") {
        Some(host) => host,
        None => {
            return Ok(Begin::Respond(bad_request_response()));
        },
    };
    match resolve_request(router, request, host.as_str()) {
        Ok(routed) => begin_routed(
            routed,
            listener,
            redirect_port,
            host.as_str(),
            target_or_root(request.target.as_str()).as_str(),
        ),
        Err(e) => Err(e),
    }
}

/// What runs a site's PHP.
#[derive(Debug)]
pub enum Backend {
    /// A FrankenPHP server, spoken to in HTTP.
    FrankenPhp {
        /// Its address.
        addr: String,
    },
    /// An FPM pool on a Unix socket.
    PhpFpm {
        /// The socket.
        socket: String,
    },
    /// An FPM pool on a TCP port.
    PhpFpmTcp {
        /// Its address.
        addr: String,
    },
}

/// What is done with a request once its backend is known.
#[derive(Debug)]
pub enum BackendStep {
    /// Forward it in HTTP.
    Http {
        /// The address.
        addr: String,
    },
    /// Forward it in HTTP, and then let bytes pass both ways.
    Upgrade {
        /// The address.
        addr: String,
    },
    /// Serve files, and else speak FastCGI to this backend.
    Php(Backend),
    /// Answer with this reply.
    Respond(Response<Vec<u8>>),
}

/// Whether a request asks to change protocols: a `Connection` field lists `upgrade`,
/// and there is an `Upgrade` field.
pub open spec fn wants_upgrade(groups: Seq<(Seq<char>, Seq<Seq<u8>>)>) -> bool {
    &&& exists|i: int|
        0 <= i < connection_names(fields_of(groups)).len() && lower(
            #[trigger] connection_names(fields_of(groups))[i],
        ) == "upgrade"@
    &&& values_of(groups, "upgrade"@).len() > 0
}

/// Whether a request asks to change protocols.
pub fn is_upgrade(headers: &http::HeaderMap<http::HeaderValue>) -> (r: bool)
    ensures
        r == wants_upgrade(header_groups(*headers)),
{
    proof {
        reveal_strlit("upgrade");
        lemma_lookup("upgrade"@);
    }
    if header_get(headers, "upgrade").is_none() {
        return false;
    }
    let names: Vec<String> = connection_tokens(headers);
    let ghost all = connection_names(fields_of(header_groups(*headers)));
    let mut i: usize = 0;
    while i < names.len()
        invariant
            i <= names@.len(),
            all == views(names@),
            all == connection_names(fields_of(header_groups(*headers))),
            values_of(header_groups(*headers), "upgrade"@).len() > 0,
            forall|j: int| 0 <= j < i ==> lower(#[trigger] all[j]) != "upgrade"@,
        decreases names@.len() - i,
    {
        assert(all[i as int] == names@[i as int]@);
        if str_eq(lower_str(names[i].as_str()).as_str(), "upgrade") {
            return true;
        }
        i = i + 1;
    }
    false
}

/// The error of a backend that could not be had: one that says why keeps its form, any
/// other names the host.
pub open spec fn is_backend_error(r: ProxyError, host: Seq<char>, e: ProxyError) -> bool {
    match e {
        ProxyError::BackendResolver { .. } => r == e,
        ProxyError::BackendConnect { .. } => r == e,
        ProxyError::BackendProtocol { .. } => r == e,
        _ => match r {
            ProxyError::BackendResolver { host: h, source } => h@ == host && source@ == error_text(
                e,
            ),
            _ => false,
        },
    }
}

/// The error of a backend that could not be had.
pub fn backend_error(host: &str, e: ProxyError) -> (r: ProxyError)
    ensures
        is_backend_error(r, host@, e),
{
    match e {
        ProxyError::BackendResolver { host, source } => ProxyError::BackendResolver {
            host,
            source,
        },
        ProxyError::BackendConnect { backend, source } => ProxyError::BackendConnect {
            backend,
            source,
        },
        ProxyError::BackendProtocol { source } => ProxyError::BackendProtocol { source },
        other => {
            let source: String = other.to_string();
            ProxyError::BackendResolver { host: host.to_owned(), source }
        },
    }
}

/// Whether `r` is what is done with a request once its backend is known, or known to be
/// missing.
pub open spec fn is_chosen(
    r: Result<BackendStep, ProxyError>,
    host: Seq<char>,
    groups: Seq<(Seq<char>, Seq<Seq<u8>>)>,
    backend: Result<Backend, ProxyError>,
) -> bool {
    match backend {
        Err(e) => r is Err && is_backend_error(r->Err_0, host, e),
        Ok(Backend::FrankenPhp { addr }) => r == Ok::<BackendStep, ProxyError>(
            if wants_upgrade(groups) {
                BackendStep::Upgrade { addr }
            } else {
                BackendStep::Http { addr }
            },
        ),
        Ok(fpm) => if wants_upgrade(groups) {
            r is Ok && r->Ok_0 is Respond && is_reply(
                r->Ok_0->Respond_0,
                501,
                plain_fields(),
                "WebSocket upgrade not supported on FastCGI backends.\n"@,
            )
        } else {
            r == Ok::<BackendStep, ProxyError>(BackendStep::Php(fpm))
        },
    }
}

/// What is done with a request once its backend is known. FastCGI has no byte stream
/// to upgrade to.
pub fn choose_backend(
    host: &str,
    headers: &http::HeaderMap<http::HeaderValue>,
    backend: Result<Backend, ProxyError>,
) -> (r: Result<BackendStep, ProxyError>)
    ensures
        is_chosen(r, host@, header_groups(*headers), backend),
{
    let backend: Backend = match backend {
        Ok(backend) => backend,
        Err(e) => {
            return Err(backend_error(host, e));
        },
    };
    let upgrade: bool = is_upgrade(headers);
    match backend {
        Backend::FrankenPhp { addr } => if upgrade {
            Ok(BackendStep::Upgrade { addr })
        } else {
            Ok(BackendStep::Http { addr })
        },
        fpm => if upgrade {
            Ok(BackendStep::Respond(upgrade_not_supported()))
        } else {
            Ok(BackendStep::Php(fpm))
        },
    }
}

/// A redirect to HTTPS comes before everything else that a site or a proxied host
/// does, so it reaches neither a backend nor a login token.
pub proof fn law_https_comes_first(
    r: Result<Begin, ProxyError>,
    routed: Routed,
    host: Seq<char>,
    target: Seq<char>,
    port: u16,
)
    requires
        is_begun(r, routed, Listener::Http, Some(port), host, target),
        match routed {
            Routed::Proxy { secure, .. } => secure,
            Routed::Site { site, unbound, .. } => site.secure && !unbound,
            _ => false,
        },
    ensures
        is_redirected(r, host, target, port),
        !(r is Ok && (r->Ok_0 is Backend || r->Ok_0 is Forward)),
{
}

/// On HTTPS, and for a site that was not reached by its host name, nothing is
/// redirected to HTTPS.
pub proof fn law_https_is_never_redirected(
    r: Result<Begin, ProxyError>,
    routed: Routed,
    listener: Listener,
    redirect_port: Option<u16>,
    host: Seq<char>,
    target: Seq<char>,
)
    requires
        is_begun(r, routed, listener, redirect_port, host, target),
        routed is Site,
        listener == Listener::Https || routed->unbound,
    ensures
        r is Ok,
        r->Ok_0 is Forward || r->Ok_0 is Backend,
{
}

/// Where a FastCGI backend is connected to.
#[derive(Debug)]
pub enum Endpoint {
    /// A TCP address.
    Tcp(String),
    /// A Unix socket.
    Unix(String),
}

/// The message of a backend that does not speak FastCGI.
pub fn unreachable_franken() -> (r: String)
    ensures
        r@ == "FrankenPhp backend reached FastCGI forwarder — dispatch bug"@,
{
    "FrankenPhp backend reached FastCGI forwarder — dispatch bug".to_owned()
}

/// Whether `r` is where a FastCGI backend is connected to.
pub open spec fn is_endpoint(r: Result<Endpoint, String>, backend: Backend) -> bool {
    match backend {
        Backend::PhpFpmTcp { addr } => r is Ok && r->Ok_0 is Tcp && r->Ok_0->Tcp_0@ == addr@,
        Backend::PhpFpm { socket } => r is Ok && r->Ok_0 is Unix && r->Ok_0->Unix_0@ == socket@,
        Backend::FrankenPhp { .. } => r is Err && r->Err_0@
            == "FrankenPhp backend reached FastCGI forwarder — dispatch bug"@,
    }
}

/// Where a FastCGI backend is connected to.
pub fn open_backend(backend: &Backend) -> (r: Result<Endpoint, String>)
    ensures
        is_endpoint(r, *backend),
{
    match backend {
        Backend::PhpFpmTcp { addr } => Ok(Endpoint::Tcp(addr.clone())),
        Backend::PhpFpm { socket } => Ok(Endpoint::Unix(socket.clone())),
        Backend::FrankenPhp { .. } => Err(unreachable_franken()),
    }
}

/// Whether `r` is the response to a request: an error becomes a `500`.
pub open spec fn is_handled(
    r: Response<Vec<u8>>,
    outcome: Result<Response<Vec<u8>>, ProxyError>,
) -> bool {
    match outcome {
        Ok(reply) => r == reply,
        Err(_) => is_reply(r, 500, plain_fields(), "Proxy internal error.\n"@),
    }
}

/// The response to a request: an error becomes a `500`, so that the connection goes on.
pub fn handle_request(outcome: Result<Response<Vec<u8>>, ProxyError>) -> (r: Response<Vec<u8>>)
    ensures
        is_handled(r, outcome),
{
    match outcome {
        Ok(reply) => reply,
        Err(_) => internal_error_response(),
    }
}

} // verus!
