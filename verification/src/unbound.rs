//! Requests to a loopback host that names no site.
//!
//! With no resolver in place, every site is reached through `localhost`. A request
//! names its site by a header, switches to one with a `/~name` path, or stays with the
//! one that a cookie pins; a browser that names none is offered a page to pick one.

use vstd::prelude::*;
use vstd::utf8::{decode_utf8, valid_utf8};

use crate::cgi_params::opt_view;
use crate::headers::{header_get, header_groups, lemma_lookup, values_of};
use crate::sites::{
    host_name, host_name_of, lemma_found_site, lemma_name_is_found, meant_site, site_named, RouterView, Site, SiteKind,
    SiteRouter, SiteView,
};
use crate::text::{
    chars_of, concat, contains_str, has_part, lemma_join_split, lemma_split_first, split, split_str, str_eq, string_from_utf8, string_of, strip_prefix,
    trim_str, trimmed, views, white_space,
};

verus! {

/// The header that names the site of a request.
pub const SITE_HEADER: &'static str = "x-yerd-site";

/// The same header, without its second dash.
pub const SITE_HEADER_ALIAS: &'static str = "x-yerdsite";

/// Whether a `Host` value names this machine.
pub open spec fn loopback(host: Seq<char>) -> bool {
    let name = host_name(host);
    name == "localhost"@ || name == "127.0.0.1"@ || name == "[::1]"@
}

/// Whether a `Host` value names this machine.
pub fn is_loopback_host(host: &str) -> (r: bool)
    ensures
        r == loopback(host@),
{
    let name: String = host_name_of(host);
    str_eq(name.as_str(), "localhost") || str_eq(name.as_str(), "127.0.0.1") || str_eq(
        name.as_str(),
        "[::1]",
    )
}

/// Whether a path asks to drop the pin.
pub open spec fn clear_switch(path: Seq<char>) -> bool {
    path == "/~"@ || path == "/~/"@
}

/// Whether a path asks to drop the pin.
pub fn is_clear_switch(path: &str) -> (r: bool)
    ensures
        r == clear_switch(path@),
{
    str_eq(path, "/~") || str_eq(path, "/~/")
}

/// The site and the rest that a `/~site/rest` path holds.
pub open spec fn switch_of(path: Seq<char>) -> Option<(Seq<char>, Seq<char>)> {
    if "/~"@.is_prefix_of(path) {
        let rest = path.skip("/~"@.len() as int);
        let domain = split(rest, '/')[0];
        if domain.len() == 0 {
            None
        } else {
            Some((domain, rest.skip(domain.len() as int)))
        }
    } else {
        None
    }
}

/// The first piece of a split begins the string.
proof fn lemma_first_piece(s: Seq<char>, sep: char)
    ensures
        split(s, sep).len() > 0,
        split(s, sep)[0].len() <= s.len(),
        s.take(split(s, sep)[0].len() as int) == split(s, sep)[0],
    decreases s.len(),
{
    if s.len() > 0 {
        lemma_first_piece(s.drop_last(), sep);
        let prev = split(s.drop_last(), sep);
        let now = split(s, sep);
        if s.last() != sep && prev.len() == 1 {
            assert(now[0] == prev[0].push(s.last()));
            lemma_join_split(s, sep);
            assert(s.take(s.len() as int) =~= s);
        } else {
            assert(now[0] == prev[0]);
            assert(s.take(prev[0].len() as int) =~= s.drop_last().take(prev[0].len() as int));
        }
    } else {
        assert(s.take(0) =~= Seq::empty());
    }
}

/// The site and the rest that a `/~site/rest` path holds.
pub fn parse_switch(path: &str) -> (r: Option<(String, String)>)
    ensures
        r is Some <==> switch_of(path@) is Some,
        r is Some ==> ((r->0).0@, (r->0).1@) == switch_of(path@)->0,
{
    match strip_prefix(path, "/~") {
        Some(rest) => {
            let pieces: Vec<String> = split_str(rest.as_str(), '/');
            let domain: String = pieces[0].clone();
            assert(views(pieces@)[0] == pieces@[0]@);
            if domain.as_str().is_empty() {
                return None;
            }
            let chars: Vec<char> = chars_of(rest.as_str());
            let n: usize = chars_of(domain.as_str()).len();
            proof {
                lemma_first_piece(rest@, '/');
            }
            let remainder: String = string_of(&chars, n, chars.len());
            assert(remainder@ =~= rest@.skip(domain@.len() as int));
            Some((domain, remainder))
        },
        None => None,
    }
}

/// The value that a `name=value` pair has for `key`.
pub open spec fn pair_value(pair: Seq<char>, key: Seq<char>) -> Option<Seq<char>> {
    if key.push('=').is_prefix_of(pair) {
        Some(pair.skip(key.len() as int + 1))
    } else {
        None
    }
}

/// The first value for the pin among the pairs of a `Cookie` header.
pub open spec fn first_pin(pairs: Seq<Seq<char>>) -> Option<Seq<char>>
    decreases pairs.len(),
{
    if pairs.len() == 0 {
        None
    } else {
        match first_pin(pairs.drop_last()) {
            Some(v) => Some(v),
            None => pair_value(trimmed(pairs.last()), "yerd-site"@),
        }
    }
}

/// The site that a `Cookie` header pins.
pub open spec fn cookie_site(cookie: Seq<char>) -> Option<Seq<char>> {
    match first_pin(split(cookie, ';')) {
        Some(v) => if v.len() > 0 {
            Some(v)
        } else {
            None
        },
        None => None,
    }
}

/// The site that a `Cookie` header pins.
pub fn parse_cookie_site(cookie: &str) -> (r: Option<String>)
    ensures
        r is Some <==> cookie_site(cookie@) is Some,
        r is Some ==> r->0@ == cookie_site(cookie@)->0,
{
    let pairs: Vec<String> = split_str(cookie, ';');
    let ghost all = views(pairs@);
    let mut i: usize = 0;
    while i < pairs.len()
        invariant
            i <= pairs@.len(),
            all == views(pairs@),
            all == split(cookie@, ';'),
            first_pin(all.take(i as int)) is None,
        decreases pairs@.len() - i,
    {
        proof {
            assert(all.take(i + 1).drop_last() =~= all.take(i as int));
            assert(all.take(i + 1).last() == pairs@[i as int]@);
            reveal_strlit("yerd-site");
            reveal_strlit("yerd-site=");
            assert("yerd-site="@ =~= "yerd-site"@.push('='));
        }
        match strip_prefix(trim_str(pairs[i].as_str()).as_str(), "yerd-site=") {
            Some(value) => {
                proof {
                    lemma_first_pin(all, i + 1, all.len() as int);
                    assert(all.take(all.len() as int) =~= all);
                }
                if value.as_str().is_empty() {
                    return None;
                }
                return Some(value);
            },
            None => {},
        }
        i = i + 1;
    }
    assert(all.take(i as int) =~= all);
    None
}

/// A pin that was found stays the first.
proof fn lemma_first_pin(pairs: Seq<Seq<char>>, m: int, n: int)
    requires
        0 <= m <= n <= pairs.len(),
        first_pin(pairs.take(m)) is Some,
    ensures
        first_pin(pairs.take(n)) == first_pin(pairs.take(m)),
    decreases n - m,
{
    if m < n {
        assert(pairs.take(n).drop_last() =~= pairs.take(n - 1));
        lemma_first_pin(pairs, m, n - 1);
    }
}

/// A pin reads back as the site that it was set for, given a name that a cookie can
/// hold.
pub proof fn law_pins_read_back(name: Seq<char>)
    requires
        name.len() > 0,
        !name.contains(';'),
        !white_space(name.last()),
    ensures
        cookie_site("yerd-site="@ + name) == Some(name),
{
    let cookie = "yerd-site="@ + name;
    reveal_strlit("yerd-site");
    reveal_strlit("yerd-site=");
    assert("yerd-site="@ =~= "yerd-site"@.push('='));
    assert(!cookie.contains(';')) by {
        if cookie.contains(';') {
            let k = choose|k: int| 0 <= k < cookie.len() && cookie[k] == ';';
            if k >= 10 {
                assert(name[k - 10] == ';');
            } else {
                assert("yerd-site="@[k] != ';');
            }
        }
    }
    lemma_split_first(cookie, Seq::empty(), ';');
    let pairs = seq![cookie];
    assert(cookie[0] == 'y');
    assert(cookie.last() == name.last());
    assert(trimmed(cookie) == cookie);
    assert("yerd-site"@.push('=') =~= cookie.subrange(0, 10));
    assert(cookie.skip(10) =~= name);
    assert(first_pin(pairs.drop_last()) is None);
}

/// The cookie that pins a site.
pub open spec fn set_cookie(name: Seq<char>) -> Seq<char> {
    "yerd-site="@ + name + "; Path=/; SameSite=Lax"@
}

/// The cookie that pins a site.
pub fn build_set_cookie(name: &str) -> (r: String)
    ensures
        r@ == set_cookie(name@),
{
    let mut r: String = concat("yerd-site=", name);
    r.append("; Path=/; SameSite=Lax");
    r
}

/// The cookie that drops the pin.
pub fn build_clear_cookie() -> (r: String)
    ensures
        r@ == "yerd-site=; Path=/; Max-Age=0; SameSite=Lax"@,
{
    "yerd-site=; Path=/; Max-Age=0; SameSite=Lax".to_owned()
}

/// `path` without the slashes and backslashes that it begins with.
pub open spec fn stripped_slashes(path: Seq<char>) -> Seq<char>
    decreases path.len(),
{
    if path.len() > 0 && (path[0] == '/' || path[0] == '\\') {
        stripped_slashes(path.skip(1))
    } else {
        path
    }
}

/// The absolute path on the same origin that `path` stands for.
pub open spec fn same_origin_path(path: Seq<char>) -> Seq<char> {
    seq!['/'] + stripped_slashes(path)
}

/// The absolute path on the same origin that `path` stands for.
pub fn sanitize_dest(path: &str) -> (r: String)
    ensures
        r@ == same_origin_path(path@),
{
    let chars: Vec<char> = chars_of(path);
    let mut i: usize = 0;
    assert(chars@.skip(0) =~= chars@);
    while i < chars.len() && (chars[i] == '/' || chars[i] == '\\')
        invariant
            i <= chars@.len(),
            stripped_slashes(chars@) == stripped_slashes(chars@.skip(i as int)),
        decreases chars@.len() - i,
    {
        proof {
            let rest = chars@.skip(i as int);
            assert(rest[0] == chars@[i as int]);
            assert(rest.skip(1) =~= chars@.skip(i + 1));
        }
        i = i + 1;
    }
    proof {
        let rest = chars@.skip(i as int);
        if rest.len() > 0 {
            assert(rest[0] == chars@[i as int]);
        }
        assert(rest =~= chars@.subrange(i as int, chars@.len() as int));
        reveal_strlit("/");
        assert("/"@ =~= seq!['/']);
    }
    concat("/", string_of(&chars, i, chars.len()).as_str())
}

/// A path with its query, on the same origin.
pub open spec fn destination(path: Seq<char>, query: Option<Seq<char>>) -> Seq<char> {
    match query {
        Some(q) => if q.len() > 0 {
            same_origin_path(path).push('?') + q
        } else {
            same_origin_path(path)
        },
        None => same_origin_path(path),
    }
}

/// Join a path with a query that is not empty, made safe to redirect to.
pub fn join_path_query(path: &str, query: Option<&str>) -> (r: String)
    ensures
        r@ == destination(path@, opt_view(query)),
{
    let mut r: String = sanitize_dest(path);
    match query {
        Some(q) => {
            if !q.is_empty() {
                r.push('?');
                r.append(q);
            }
        },
        None => {},
    }
    r
}

/// Wherever a request asks to be sent, it is sent to an absolute path on the same
/// origin: the destination begins with one `/` that no second one, and no backslash,
/// follows.
pub proof fn law_destinations_stay_on_the_origin(path: Seq<char>, query: Option<Seq<char>>)
    ensures
        destination(path, query).len() > 0,
        destination(path, query)[0] == '/',
        destination(path, query).len() > 1 ==> destination(path, query)[1] != '/' && destination(
            path,
            query,
        )[1] != '\\',
{
    lemma_stripped(path);
    let d = destination(path, query);
    let p = stripped_slashes(path);
    if p.len() > 0 {
        assert(d[1] == p[0]);
    }
}

/// What is left begins with no slash.
proof fn lemma_stripped(path: Seq<char>)
    ensures
        stripped_slashes(path).len() > 0 ==> stripped_slashes(path)[0] != '/' && stripped_slashes(
            path,
        )[0] != '\\',
    decreases path.len(),
{
    if path.len() > 0 {
        lemma_stripped(path.skip(1));
    }
}

/// A destination that is on the origin already stays as it is.
pub proof fn law_plain_destinations_are_kept(path: Seq<char>)
    requires
        path.len() > 0,
        path[0] == '/',
        path.len() > 1 ==> path[1] != '/' && path[1] != '\\',
    ensures
        destination(path, None) == path,
{
    let rest = path.skip(1);
    assert(stripped_slashes(rest) == rest);
    assert(seq!['/'] + rest =~= path);
}

/// What becomes of a loopback request that named no site by its host.
#[derive(Debug)]
pub enum UnboundDecision {
    /// Serve this site.
    Serve(Site),
    /// Redirect to `location` and pin the site `name`.
    Switch {
        /// The site.
        name: String,
        /// Where to go.
        location: String,
    },
    /// Offer the page to pick a site, for `dest`.
    Picker {
        /// Where to go once a site is picked.
        dest: String,
        /// Whether a stale pin is dropped.
        clear: bool,
    },
    /// Nothing is found.
    NotFound {
        /// Whether a stale pin is dropped.
        clear: bool,
    },
    /// Redirect to `/` and drop the pin.
    ClearPin,
}

/// What an [`UnboundDecision`] is.
pub enum DecisionView {
    /// Serve this site.
    Serve(SiteView),
    /// Redirect and pin.
    Switch(Seq<char>, Seq<char>),
    /// Offer the page to pick a site.
    Picker(Seq<char>, bool),
    /// Nothing is found.
    NotFound(bool),
    /// Redirect to `/` and drop the pin.
    ClearPin,
}

impl View for UnboundDecision {
    type V = DecisionView;

    open spec fn view(&self) -> DecisionView {
        match *self {
            UnboundDecision::Serve(site) => DecisionView::Serve(site@),
            UnboundDecision::Switch { name, location } => DecisionView::Switch(name@, location@),
            UnboundDecision::Picker { dest, clear } => DecisionView::Picker(dest@, clear),
            UnboundDecision::NotFound { clear } => DecisionView::NotFound(clear),
            UnboundDecision::ClearPin => DecisionView::ClearPin,
        }
    }
}

/// A page to pick from for a browser, nothing for anyone else.
pub open spec fn picker_or_nothing(html_get: bool, dest: Seq<char>, clear: bool) -> DecisionView {
    if html_get {
        DecisionView::Picker(dest, clear)
    } else {
        DecisionView::NotFound(clear)
    }
}

/// Show the page to pick from for browser navigations only, so that stray asset
/// traffic never receives HTML.
pub fn decide_picker(is_html_get: bool, dest: String, clear: bool) -> (r: UnboundDecision)
    ensures
        r@ == picker_or_nothing(is_html_get, dest@, clear),
{
    if is_html_get {
        UnboundDecision::Picker { dest, clear }
    } else {
        UnboundDecision::NotFound { clear }
    }
}

/// Whether a browser navigates.
pub open spec fn html_navigation(method: Seq<char>, accept: Option<Seq<char>>) -> bool {
    method == "GET"@ && accept is Some && has_part(accept->0, "text/html"@)
}

/// What becomes of a loopback request that named no site by its host. In this order
/// it goes by the header that names a site, the path that drops the pin, the path
/// that switches, and the cookie that pins.
pub open spec fn unbound_decision(
    router: RouterView,
    method: Seq<char>,
    path: Seq<char>,
    query: Option<Seq<char>>,
    site_header: Option<Seq<char>>,
    cookie: Option<Seq<char>>,
    accept: Option<Seq<char>>,
) -> DecisionView {
    let html_get = html_navigation(method, accept);
    let pin = match cookie {
        Some(c) => cookie_site(c),
        None => None,
    };
    if site_header is Some && trimmed(site_header->0).len() > 0 {
        match meant_site(router, trimmed(site_header->0)) {
            Some(i) => DecisionView::Serve(router.sites[i].site),
            None => DecisionView::NotFound(false),
        }
    } else if clear_switch(path) {
        DecisionView::ClearPin
    } else if switch_of(path) is Some {
        let (domain, remainder) = switch_of(path)->0;
        match meant_site(router, domain) {
            Some(i) => DecisionView::Switch(
                router.sites[i].site.name,
                destination(remainder, query),
            ),
            None => picker_or_nothing(html_get, destination(remainder, query), false),
        }
    } else if pin is Some {
        match site_named(router, pin->0, 0) {
            Some(i) => DecisionView::Serve(router.sites[i].site),
            None => picker_or_nothing(html_get, destination(path, query), true),
        }
    } else {
        picker_or_nothing(html_get, destination(path, query), false)
    }
}

/// Only a browser navigation is answered with a page; a redirect stays on the origin;
/// what is served or pinned is a known site; and a pin is dropped only where it names
/// no known site.
pub proof fn law_unbound_decisions(
    router: RouterView,
    method: Seq<char>,
    path: Seq<char>,
    query: Option<Seq<char>>,
    site_header: Option<Seq<char>>,
    cookie: Option<Seq<char>>,
    accept: Option<Seq<char>>,
)
    ensures
        match unbound_decision(router, method, path, query, site_header, cookie, accept) {
            DecisionView::Serve(site) => exists|i: int|
                0 <= i < router.sites.len() && (#[trigger] router.sites[i]).site == site,
            DecisionView::Switch(name, location) => {
                &&& exists|i: int|
                    0 <= i < router.sites.len() && (#[trigger] router.sites[i]).site.name == name
                &&& location.len() > 0 && location[0] == '/'
                &&& location.len() > 1 ==> location[1] != '/' && location[1] != '\\'
            },
            DecisionView::Picker(dest, clear) => {
                &&& html_navigation(method, accept)
                &&& dest.len() > 0 && dest[0] == '/'
                &&& dest.len() > 1 ==> dest[1] != '/' && dest[1] != '\\'
                &&& clear ==> cookie is Some && cookie_site(cookie->0) is Some && site_named(
                    router,
                    cookie_site(cookie->0)->0,
                    0,
                ) is None
            },
            DecisionView::NotFound(clear) => clear ==> cookie is Some && cookie_site(
                cookie->0,
            ) is Some && site_named(router, cookie_site(cookie->0)->0, 0) is None,
            DecisionView::ClearPin => clear_switch(path),
        },
{
    law_destinations_stay_on_the_origin(path, query);
    if site_header is Some {
        lemma_found_site(router, host_name(trimmed(site_header->0)), 0);
        lemma_found_site(router, trimmed(site_header->0), 0);
    }
    if switch_of(path) is Some {
        let (domain, remainder) = switch_of(path)->0;
        law_destinations_stay_on_the_origin(remainder, query);
        lemma_found_site(router, host_name(domain), 0);
        lemma_found_site(router, domain, 0);
    }
    if cookie is Some && cookie_site(cookie->0) is Some {
        lemma_found_site(router, cookie_site(cookie->0)->0, 0);
    }
}

/// A site that a request switched to is the one that the following requests are served
/// by: those that carry the pin, and that neither name a site nor switch again.
pub proof fn law_a_switched_site_is_served(
    router: RouterView,
    method: Seq<char>,
    path: Seq<char>,
    query: Option<Seq<char>>,
    site_header: Option<Seq<char>>,
    cookie: Option<Seq<char>>,
    accept: Option<Seq<char>>,
    name: Seq<char>,
    location: Seq<char>,
    next_method: Seq<char>,
    next_path: Seq<char>,
    next_query: Option<Seq<char>>,
    next_accept: Option<Seq<char>>,
)
    requires
        unbound_decision(router, method, path, query, site_header, cookie, accept)
            == DecisionView::Switch(name, location),
        name.len() > 0,
        !name.contains(';'),
        !white_space(name.last()),
        !clear_switch(next_path),
        switch_of(next_path) is None,
    ensures
        match unbound_decision(
            router,
            next_method,
            next_path,
            next_query,
            None,
            Some("yerd-site="@ + name),
            next_accept,
        ) {
            DecisionView::Serve(site) => site.name == name,
            _ => false,
        },
{
    law_pins_read_back(name);
    law_unbound_decisions(router, method, path, query, site_header, cookie, accept);
    let i = choose|i: int|
        0 <= i < router.sites.len() && (#[trigger] router.sites[i]).site.name == name;
    lemma_name_is_found(router, name, 0, i);
    lemma_found_site(router, name, 0);
}

/// Classify a loopback request that named no site by its host.
pub fn classify_unbound(
    router: &SiteRouter,
    method: &str,
    path: &str,
    query: Option<&str>,
    site_header: Option<&str>,
    cookie: Option<&str>,
    accept: Option<&str>,
) -> (r: UnboundDecision)
    ensures
        r@ == unbound_decision(
            router@,
            method@,
            path@,
            opt_view(query),
            opt_view(site_header),
            opt_view(cookie),
            opt_view(accept),
        ),
{
    let is_html_get: bool = str_eq(method, "GET") && match accept {
        Some(a) => contains_str(a, "text/html"),
        None => false,
    };

    if let Some(header) = site_header {
        let value: String = trim_str(header);
        if !value.as_str().is_empty() {
            return match router.find(value.as_str()) {
                Some(i) => UnboundDecision::Serve(router.sites[i].site.clone()),
                None => UnboundDecision::NotFound { clear: false },
            };
        }
    }

    if is_clear_switch(path) {
        return UnboundDecision::ClearPin;
    }

    if let Some((domain, remainder)) = parse_switch(path) {
        let location: String = join_path_query(remainder.as_str(), query);
        return match router.find(domain.as_str()) {
            Some(i) => UnboundDecision::Switch {
                name: router.sites[i].site.name.clone(),
                location,
            },
            None => decide_picker(is_html_get, location, false),
        };
    }

    if let Some(header) = cookie {
        if let Some(name) = parse_cookie_site(header) {
            return match router.get(name.as_str()) {
                Some(i) => UnboundDecision::Serve(router.sites[i].site.clone()),
                None => decide_picker(is_html_get, join_path_query(path, query), true),
            };
        }
    }

    decide_picker(is_html_get, join_path_query(path, query), false)
}

/// The value of the header that names the site of a request, where it is UTF-8: the
/// canonical name first, then the alias.
pub open spec fn site_directive(groups: Seq<(Seq<char>, Seq<Seq<u8>>)>) -> Option<Seq<char>> {
    let canonical = values_of(groups, "x-yerd-site"@);
    let values = if canonical.len() > 0 {
        canonical
    } else {
        values_of(groups, "x-yerdsite"@)
    };
    if values.len() > 0 && valid_utf8(values[0]) {
        Some(decode_utf8(values[0]))
    } else {
        None
    }
}

/// Read the header that names the site of a request, if it is there and valid UTF-8.
pub fn site_header_value(headers: &http::HeaderMap<http::HeaderValue>) -> (r: Option<String>)
    ensures
        r is Some <==> site_directive(header_groups(*headers)) is Some,
        r is Some ==> r->0@ == site_directive(header_groups(*headers))->0,
{
    proof {
        reveal_strlit("x-yerd-site");
        reveal_strlit("x-yerdsite");
        lemma_lookup("x-yerd-site"@);
        lemma_lookup("x-yerdsite"@);
    }
    match header_get(headers, SITE_HEADER) {
        Some(value) => string_from_utf8(value),
        None => match header_get(headers, SITE_HEADER_ALIAS) {
            Some(value) => string_from_utf8(value),
            None => None,
        },
    }
}

/// The word for a site kind.
pub open spec fn kind_word(kind: SiteKind) -> Seq<char> {
    match kind {
        SiteKind::Parked => "parked"@,
        SiteKind::Linked => "linked"@,
    }
}

/// The word for a site kind.
pub fn kind_label(kind: SiteKind) -> (r: &'static str)
    ensures
        r@ == kind_word(kind),
{
    match kind {
        SiteKind::Parked => "parked",
        SiteKind::Linked => "linked",
    }
}

} // verus!
