//! Laws of [`sites`](crate::sites) and [`dispatch`](crate::dispatch).

use vstd::prelude::*;
use vstd::utf8::encode_utf8;

use crate::dispatch::{
    is_begun, is_chosen, is_dispatched, is_endpoint, is_handled, is_routed, picker_lines,
    wants_upgrade, Backend, BackendStep, Begin, Endpoint, Listener, PickerSite, PickerView, Request,
    Routed,
};
use crate::error::{error_text, ProxyError};
use crate::exchange::connection_names;
use crate::headers::{fields_of, first_text, header_groups, valid_value, values_of};
use crate::query::query_of;
use crate::redirect::redirect_uri;
use crate::replies::Response;
use crate::sites::{
    bare_prefix, best_rule, covers, host_name, is_plain_router, linked_site, parked_site, proxy_for,
    resolved_site, served_root_of, site_for, site_named, without_port, EntryView, RouterView,
    RuleView, Site, SiteView,
};
use crate::text::{decimal, joined, lemma_split_first, lower};
use crate::try_files::{request_path, rooted_target};
use crate::unbound::{loopback, set_cookie, site_directive, unbound_decision, DecisionView};

verus! {

/// A host name is what stands before the port, in lower case and without a final dot; an
/// address in brackets ends with its bracket.
pub proof fn law_host_names(name: Seq<char>, port: Seq<char>, address: Seq<char>, rest: Seq<char>)
    requires
        name.len() > 0,
        !name.contains(':'),
        name[0] != '[',
        name.last() != '.',
        !address.contains(']'),
    ensures
        host_name(name) == lower(name),
        host_name(name.push('.')) == lower(name),
        host_name(name.push(':') + port) == lower(name),
        host_name(name.push('.').push(':') + port) == lower(name),
        without_port(name.push(':') + port) == name,
        without_port(seq!['['] + address + seq![']'] + rest) == seq!['['] + address + seq![']'],
        host_name(seq!['['] + address + seq![']'] + rest) == lower(seq!['['] + address + seq![']']),
{
    lemma_split_first(name, port, ':');
    let dotted = name.push('.');
    assert(!dotted.contains(':')) by {
        if dotted.contains(':') {
            let k = choose|k: int| 0 <= k < dotted.len() && dotted[k] == ':';
            assert(name[k] == ':');
        }
    }
    lemma_split_first(dotted, port, ':');
    assert(dotted.drop_last() =~= name);
    let open = seq!['['] + address;
    assert(!open.contains(']')) by {
        if open.contains(']') {
            let k = choose|k: int| 0 <= k < open.len() && open[k] == ']';
            assert(address[k - 1] == ']');
        }
    }
    lemma_split_first(open, rest, ']');
    let whole = seq!['['] + address + seq![']'] + rest;
    assert(whole =~= open.push(']') + rest);
    assert(whole[open.len() as int] == ']');
    assert(seq!['['] + address + seq![']'] =~= open.push(']'));
    assert(open.push(']').last() == ']');
}

/// A name loses one final dot and no more, with a port or without; a bracket that is not
/// closed is a part of the name, and so is everything behind it.
pub proof fn law_final_dots(name: Seq<char>, port: Seq<char>, address: Seq<char>)
    requires
        !name.contains(':'),
        name.len() == 0 || name[0] != '[',
        !address.contains(']'),
    ensures
        host_name(name.push('.')) == lower(name),
        host_name(name.push('.').push(':') + port) == lower(name),
        without_port(name) == name,
        without_port(seq!['['] + address) == seq!['['] + address,
        without_port(seq![':'] + port) == Seq::<char>::empty(),
{
    let dotted = name.push('.');
    assert(!dotted.contains(':')) by {
        if dotted.contains(':') {
            let k = choose|k: int| 0 <= k < dotted.len() && dotted[k] == ':';
            assert(name[k] == ':');
        }
    }
    lemma_split_first(name, port, ':');
    lemma_split_first(dotted, port, ':');
    assert(dotted.drop_last() =~= name);
    let open = seq!['['] + address;
    assert(!open.contains(']')) by {
        if open.contains(']') {
            let k = choose|k: int| 0 <= k < open.len() && open[k] == ']';
            assert(address[k - 1] == ']');
        }
    }
    let none = Seq::<char>::empty();
    lemma_split_first(none, port, ':');
    assert(none.push(':') + port =~= seq![':'] + port);
}

proof fn lemma_site_for(router: RouterView, host: Seq<char>, from: int)
    requires
        0 <= from,
    ensures
        match site_for(router, host, from) {
            Some(i) => {
                &&& from <= i < router.sites.len()
                &&& crate::sites::answers(router.sites[i], router.tld, host)
                &&& forall|j: int|
                    from <= j < i ==> !crate::sites::answers(
                        #[trigger] router.sites[j],
                        router.tld,
                        host,
                    )
            },
            None => forall|j: int|
                from <= j < router.sites.len() ==> !crate::sites::answers(
                    #[trigger] router.sites[j],
                    router.tld,
                    host,
                ),
        },
    decreases router.sites.len() - from,
{
    if from < router.sites.len() {
        lemma_site_for(router, host, from + 1);
    }
}

/// Whether a site is known by a host name: its own name and the top domain, or the host
/// name that was set for it.
pub open spec fn known_as(entry: EntryView, tld: Seq<char>, host: Seq<char>) -> bool {
    host == entry.site.name + seq!['.'] + tld || entry.primary == Some(host)
}

/// A host leads to the first site that is known by its name, and to none where none is.
pub proof fn law_hosts_lead_to_their_sites(router: RouterView, host: Seq<char>)
    ensures
        match resolved_site(router, host) {
            Some(i) => {
                &&& 0 <= i < router.sites.len()
                &&& known_as(router.sites[i], router.tld, host_name(host))
                &&& forall|j: int|
                    0 <= j < i ==> !known_as(
                        #[trigger] router.sites[j],
                        router.tld,
                        host_name(host),
                    )
            },
            None => forall|j: int|
                0 <= j < router.sites.len() ==> !known_as(
                    #[trigger] router.sites[j],
                    router.tld,
                    host_name(host),
                ),
        },
{
    lemma_site_for(router, host_name(host), 0);
    assert forall|j: int| 0 <= j < router.sites.len() implies known_as(
        #[trigger] router.sites[j],
        router.tld,
        host_name(host),
    ) == crate::sites::answers(router.sites[j], router.tld, host_name(host)) by {
        let name = router.sites[j].site.name;
        assert(name + seq!['.'] =~= name.push('.'));
    }
}

/// A proxied host is found by its name, the first of equals, and a site by its own.
pub proof fn law_names_are_found(router: RouterView, name: Seq<char>, from: int)
    requires
        0 <= from,
    ensures
        match proxy_for(router, name, from) {
            Some(i) => from <= i < router.proxies.len() && router.proxies[i].domain == name && (forall|
                j: int,
            |
                from <= j < i ==> (#[trigger] router.proxies[j]).domain != name),
            None => forall|j: int|
                from <= j < router.proxies.len() ==> (#[trigger] router.proxies[j]).domain != name,
        },
        match site_named(router, name, from) {
            Some(i) => from <= i < router.sites.len() && router.sites[i].site.name == name && (forall|
                j: int,
            |
                from <= j < i ==> (#[trigger] router.sites[j]).site.name != name),
            None => forall|j: int|
                from <= j < router.sites.len() ==> (#[trigger] router.sites[j]).site.name != name,
        },
{
    lemma_names_are_found(router, name, from);
}

proof fn lemma_names_are_found(router: RouterView, name: Seq<char>, from: int)
    requires
        0 <= from,
    ensures
        match proxy_for(router, name, from) {
            Some(i) => from <= i < router.proxies.len() && router.proxies[i].domain == name && (forall|
                j: int,
            |
                from <= j < i ==> (#[trigger] router.proxies[j]).domain != name),
            None => forall|j: int|
                from <= j < router.proxies.len() ==> (#[trigger] router.proxies[j]).domain != name,
        },
        match site_named(router, name, from) {
            Some(i) => from <= i < router.sites.len() && router.sites[i].site.name == name && (forall|
                j: int,
            |
                from <= j < i ==> (#[trigger] router.sites[j]).site.name != name),
            None => forall|j: int|
                from <= j < router.sites.len() ==> (#[trigger] router.sites[j]).site.name != name,
        },
    decreases (if from < router.sites.len() {
        router.sites.len() - from
    } else {
        0
    }) + (if from < router.proxies.len() {
        router.proxies.len() - from
    } else {
        0
    }),
{
    if from < router.sites.len() || from < router.proxies.len() {
        lemma_names_are_found(router, name, from + 1);
    }
}

/// A prefix covers itself and what lies below it, a directory at a time, whether it is
/// written with a slash at its end or without; and nothing else.
pub proof fn law_prefixes_cover_what_lies_below(prefix: Seq<char>, rest: Seq<char>, path: Seq<char>)
    requires
        prefix.len() == 0 || prefix.last() != '/',
    ensures
        covers(prefix, prefix),
        covers(prefix, prefix + seq!['/'] + rest),
        rest.len() > 0 && rest[0] != '/' ==> !covers(prefix, prefix + rest),
        covers(prefix, path) ==> path == prefix || (path.len() > prefix.len() && path.take(
            prefix.len() as int,
        ) == prefix && path[prefix.len() as int] == '/'),
        covers(prefix.push('/'), path) == covers(prefix, path),
{
    let slashed = prefix.push('/');
    let below = prefix + seq!['/'] + rest;
    assert(slashed =~= below.subrange(0, slashed.len() as int));
    assert(slashed.drop_last() =~= prefix);
    if rest.len() > 0 && rest[0] != '/' {
        let beside = prefix + rest;
        assert(beside.len() != prefix.len());
        if slashed.is_prefix_of(beside) {
            assert(slashed[prefix.len() as int] == beside.subrange(0, slashed.len() as int)[prefix.len() as int]);
        }
    }
    if slashed.is_prefix_of(path) {
        assert(path.subrange(0, slashed.len() as int) == slashed);
        assert(path.take(prefix.len() as int) =~= slashed.take(prefix.len() as int));
        assert(slashed.take(prefix.len() as int) =~= prefix);
        assert(path[prefix.len() as int] == path.subrange(0, slashed.len() as int)[prefix.len() as int]);
    }
}

/// How long a prefix is, not counting a slash at its end.
pub open spec fn weight(prefix: Seq<char>) -> int {
    if prefix.len() > 0 && prefix.last() == '/' {
        prefix.len() - 1
    } else {
        prefix.len() as int
    }
}

/// Whether rule `i` is the one that a path meets: it covers the path, no other that does
/// is longer, and none as long stands before it.
pub open spec fn is_met(rules: Seq<RuleView>, path: Seq<char>, i: int) -> bool {
    &&& 0 <= i < rules.len()
    &&& covers(rules[i].prefix, path)
    &&& forall|j: int|
        0 <= j < rules.len() && covers((#[trigger] rules[j]).prefix, path) ==> weight(rules[j].prefix)
            <= weight(rules[i].prefix) && (j < i ==> weight(rules[j].prefix) < weight(
            rules[i].prefix,
        ))
}

/// Of the rules that cover a path, the one with the longest prefix is met, and the first of
/// those; where any covers it, one is met.
pub proof fn law_the_longest_rule_is_met(rules: Seq<RuleView>, path: Seq<char>)
    ensures
        match best_rule(rules, path) {
            Some(i) => is_met(rules, path, i),
            None => forall|j: int|
                0 <= j < rules.len() ==> !covers((#[trigger] rules[j]).prefix, path),
        },
    decreases rules.len(),
{
    if rules.len() > 0 {
        let before = rules.drop_last();
        law_the_longest_rule_is_met(before, path);
        assert forall|j: int| 0 <= j < before.len() implies rules[j] == #[trigger] before[j] by {}
        assert forall|p: Seq<char>| weight(p) == #[trigger] bare_prefix(p).len() by {}
        if let Some(i) = best_rule(rules, path) {
            assert forall|j: int| 0 <= j < rules.len() && covers((#[trigger] rules[j]).prefix, path)
                implies weight(rules[j].prefix) <= weight(rules[i].prefix) && (j < i ==> weight(
                rules[j].prefix,
            ) < weight(rules[i].prefix)) by {
                if j < before.len() {
                    assert(before[j] == rules[j]);
                }
            }
        } else {
            assert forall|j: int| 0 <= j < rules.len() implies !covers(
                (#[trigger] rules[j]).prefix,
                path,
            ) by {
                if j < before.len() {
                    assert(before[j] == rules[j]);
                }
            }
        }
    }
}

/// Whether plain HTTP is sent to HTTPS first.
pub open spec fn goes_to_https(
    listener: Listener,
    secure: bool,
    unbound: bool,
    redirect_port: Option<u16>,
) -> bool {
    listener == Listener::Http && secure && !unbound && redirect_port is Some
}

/// A request to a site by its host, which is not sent to HTTPS first, goes to the upstream
/// of the longest proxy rule that covers its path, on either listener; and where no proxy
/// rule does, to the backend of that very site, with the longest routing rule.
pub proof fn law_site_requests_begin(
    r: Result<Begin, ProxyError>,
    routed: Routed,
    router: RouterView,
    request: Request,
    host: Seq<char>,
    listener: Listener,
    redirect_port: Option<u16>,
    target: Seq<char>,
    i: int,
)
    requires
        is_routed(Ok(routed), router, request, host),
        resolved_site(router, host) == Some(i),
        is_begun(r, routed, listener, redirect_port, host, target),
        !goes_to_https(listener, router.sites[i].site.secure, false, redirect_port),
    ensures
        ({
            let entry = router.sites[i];
            let path = request_path(request.target@);
            let taken_over = exists|j: int|
                0 <= j < entry.proxy_rules.len() && covers(
                    (#[trigger] entry.proxy_rules[j]).prefix,
                    path,
                );
            let ruled = exists|j: int|
                0 <= j < entry.route_rules.len() && covers(
                    (#[trigger] entry.route_rules[j]).prefix,
                    path,
                );
            &&& r is Ok
            &&& taken_over ==> r->Ok_0 is Forward && r->Ok_0->Forward_0@.tld == router.tld && exists|
                j: int,
            |
                is_met(entry.proxy_rules, path, j) && r->Ok_0->Forward_0@.target == (
                #[trigger] entry.proxy_rules[j]).target
            &&& !taken_over ==> r->Ok_0 is Backend && {
                let plan = r->Ok_0->Backend_0;
                &&& plan.host@ == host
                &&& plan.site@ == entry.site
                &&& plan.allowed_root@ == entry.site.document_root
                &&& plan.served_root@ == served_root_of(entry.site)
                &&& ruled ==> plan.route is Some && exists|j: int|
                    is_met(entry.route_rules, path, j) && plan.route->0@ == (
                    #[trigger] entry.route_rules[j])
                &&& !ruled ==> plan.route is None
            }
        }),
{
    let entry = router.sites[i];
    let path = request_path(request.target@);
    law_the_longest_rule_is_met(entry.proxy_rules, path);
    law_the_longest_rule_is_met(entry.route_rules, path);
    if let Some(j) = best_rule(entry.proxy_rules, path) {
        assert(is_met(entry.proxy_rules, path, j));
        assert(covers(entry.proxy_rules[j].prefix, path));
    }
    if let Some(j) = best_rule(entry.route_rules, path) {
        assert(is_met(entry.route_rules, path, j));
        assert(covers(entry.route_rules[j].prefix, path));
    }
}

/// A proxied host goes to its upstream, on either listener, unless it is sent to HTTPS
/// first.
pub proof fn law_proxied_hosts_are_forwarded(
    r: Result<Begin, ProxyError>,
    routed: Routed,
    router: RouterView,
    request: Request,
    host: Seq<char>,
    listener: Listener,
    redirect_port: Option<u16>,
    target: Seq<char>,
    i: int,
)
    requires
        is_routed(Ok(routed), router, request, host),
        resolved_site(router, host) is None,
        proxy_for(router, host_name(host), 0) == Some(i),
        is_begun(r, routed, listener, redirect_port, host, target),
        !goes_to_https(listener, router.proxies[i].secure, false, redirect_port),
    ensures
        r is Ok,
        r->Ok_0 is Forward,
        r->Ok_0->Forward_0@.target == router.proxies[i].target,
        r->Ok_0->Forward_0@.tld == router.tld,
{
}

/// The redirect to HTTPS: the same host without its port, the port unless it is the
/// default, and the same path and query.
pub open spec fn https_form(host: Seq<char>, port: u16, target: Seq<char>) -> Seq<char> {
    if port == 443 {
        "https://"@ + without_port(host) + target
    } else {
        "https://"@ + without_port(host) + seq![':'] + decimal(port as nat) + target
    }
}

/// The HTTPS form of a request, whatever its host, port and target are.
pub proof fn law_https_forms(host: Seq<char>, port: u16, target: Seq<char>)
    ensures
        redirect_uri(host, target, port) == https_form(host, port, target),
{
    reveal_strlit(":");
    assert(":"@ =~= seq![':']);
}

/// A secure site or proxied host sends plain HTTP to its HTTPS form, for good, before
/// anything else is done with the request.
pub proof fn law_secure_hosts_redirect(
    r: Result<Begin, ProxyError>,
    routed: Routed,
    host: Seq<char>,
    target: Seq<char>,
    port: u16,
)
    requires
        is_begun(r, routed, Listener::Http, Some(port), host, target),
        match routed {
            Routed::Proxy { secure, .. } => secure,
            Routed::Site { site, unbound, .. } => site.secure && !unbound,
            _ => false,
        },
    ensures
        valid_value(encode_utf8(https_form(host, port, target))) ==> {
            &&& r is Ok
            &&& r->Ok_0 is Respond
            &&& r->Ok_0->Respond_0.status == 301
            &&& values_of(header_groups(r->Ok_0->Respond_0.headers), "location"@) == seq![
                encode_utf8(https_form(host, port, target)),
            ]
            &&& r->Ok_0->Respond_0.body@.len() == 0
        },
        !valid_value(encode_utf8(https_form(host, port, target))) ==> r is Err,
{
    reveal_strlit(":");
    assert(":"@ =~= seq![':']);
    crate::laws::replies::law_moves_name_their_location(
        https_form(host, port, target),
        false,
    );
    assert(encode_utf8(Seq::<char>::empty()) =~= Seq::empty());
}

/// A host that nothing is known by is not found, unless it is this machine.
pub proof fn law_unknown_hosts_are_not_found(
    routed: Result<Routed, ProxyError>,
    router: RouterView,
    request: Request,
    host: Seq<char>,
)
    requires
        is_routed(routed, router, request, host),
        !loopback(host),
        forall|j: int|
            0 <= j < router.sites.len() ==> !known_as(
                #[trigger] router.sites[j],
                router.tld,
                host_name(host),
            ),
        forall|j: int|
            0 <= j < router.proxies.len() ==> (#[trigger] router.proxies[j]).domain != host_name(host),
    ensures
        routed is Ok,
        routed->Ok_0 is Respond,
        routed->Ok_0->Respond_0.status == 404,
        routed->Ok_0->Respond_0.body@ == encode_utf8("No site matches this Host.\n"@),
{
    law_hosts_lead_to_their_sites(router, host);
    law_names_are_found(router, host_name(host), 0);
}

/// A reply, and the page to pick from, go out as they were made, on either listener.
pub proof fn law_replies_go_out(
    r: Result<Begin, ProxyError>,
    routed: Routed,
    listener: Listener,
    redirect_port: Option<u16>,
    host: Seq<char>,
    target: Seq<char>,
)
    requires
        is_begun(r, routed, listener, redirect_port, host, target),
    ensures
        routed is Respond ==> r == Ok::<Begin, ProxyError>(Begin::Respond(routed->Respond_0)),
        routed is Picker ==> r is Ok && r->Ok_0 is Picker && r->Ok_0->Picker_sites
            == routed->Picker_sites && r->Ok_0->Picker_dest == routed->Picker_dest && r->Ok_0->Picker_clear
            == routed->Picker_clear,
{
}

/// The page to pick from has a line for every site, in their order: its name, the host name
/// that it is reached by, whether it is secure, and its kind.
pub proof fn law_every_site_can_be_picked(router: RouterView)
    ensures
        picker_lines(router).len() == router.sites.len(),
        forall|i: int|
            0 <= i < router.sites.len() ==> {
                let line: PickerView = #[trigger] picker_lines(router)[i];
                let entry = router.sites[i];
                &&& line.name == entry.site.name
                &&& line.secure == entry.site.secure
                &&& entry.primary is Some ==> line.primary == entry.primary->0
                &&& entry.primary is None ==> line.primary == entry.site.name + seq!['.'] + router.tld
                &&& entry.site.kind is Parked ==> line.kind == "parked"@
                &&& entry.site.kind is Linked ==> line.kind == "linked"@
            },
{
    assert forall|i: int| 0 <= i < router.sites.len() implies router.sites[i].site.name + seq!['.']
        + router.tld == (#[trigger] router.sites[i]).site.name.push('.') + router.tld by {
        let name = router.sites[i].site.name;
        assert(name + seq!['.'] =~= name.push('.'));
    }
}

/// A site serves its root, or the directory below it that is set for it.
pub proof fn law_served_roots(site: SiteView)
    ensures
        site.web_subpath.len() == 0 ==> served_root_of(site) == site.document_root,
        site.web_subpath.len() > 0 ==> served_root_of(site) == joined(
            site.document_root,
            site.web_subpath,
        ),
        site.web_subpath.len() > 0 && site.web_subpath[0] != '/' ==> site.document_root.is_prefix_of(
            served_root_of(site),
        ) && site.web_subpath.is_suffix_of(served_root_of(site)),
{
    crate::laws::text::law_joined_paths(site.document_root, site.web_subpath);
}

/// A request asks to change protocols where it has an `Upgrade` field and lists it in a
/// `Connection` field, in any case.
pub proof fn law_upgrades(groups: Seq<(Seq<char>, Seq<Seq<u8>>)>, i: int)
    ensures
        values_of(groups, "upgrade"@).len() == 0 ==> !wants_upgrade(groups),
        values_of(groups, "upgrade"@).len() > 0 && 0 <= i < connection_names(fields_of(groups)).len()
            && lower(connection_names(fields_of(groups))[i]) == "upgrade"@ ==> wants_upgrade(groups),
        wants_upgrade(groups) ==> exists|j: int|
            0 <= j < connection_names(fields_of(groups)).len() && lower(
                #[trigger] connection_names(fields_of(groups))[j],
            ) == "upgrade"@,
{
}

/// What a request to this machine comes to: the site that is served is reached without its
/// host name, with its own rules; a switch leads to its location and sets the pin; the page
/// to pick from leads on to its destination; and where the pin is dropped, the answer says
/// so.
pub proof fn law_loopback_outcomes(
    routed: Result<Routed, ProxyError>,
    router: RouterView,
    request: Request,
    host: Seq<char>,
)
    requires
        is_routed(routed, router, request, host),
        loopback(host),
        resolved_site(router, host) is None,
        proxy_for(router, host_name(host), 0) is None,
    ensures
        ({
            let groups = header_groups(request.headers);
            let path = request_path(request.target@);
            match unbound_decision(
                router,
                request.method@,
                path,
                query_of(request.target@),
                site_directive(groups),
                first_text(groups, "cookie"@),
                first_text(groups, "accept"@),
            ) {
                DecisionView::Serve(site) => routed is Ok && routed->Ok_0 is Site && {
                    let entry = router.sites[site_named(router, site.name, 0)->0];
                    let matched = routed->Ok_0->matched;
                    let route = routed->Ok_0->route;
                    &&& routed->Ok_0->site@ == site
                    &&& routed->Ok_0->unbound
                    &&& match best_rule(entry.proxy_rules, path) {
                        Some(i) => matched is Some && matched->0@.target == entry.proxy_rules[i].target,
                        None => matched is None,
                    }
                    &&& match best_rule(entry.route_rules, path) {
                        Some(i) => route is Some && route->0@ == entry.route_rules[i],
                        None => route is None,
                    }
                },
                DecisionView::Switch(name, location) => valid_value(encode_utf8(location)) && valid_value(
                    encode_utf8(set_cookie(name)),
                ) ==> routed is Ok && routed->Ok_0 is Respond && {
                    let reply = routed->Ok_0->Respond_0;
                    &&& reply.status == 303
                    &&& values_of(header_groups(reply.headers), "location"@) == seq![
                        encode_utf8(location),
                    ]
                    &&& values_of(header_groups(reply.headers), "set-cookie"@) == seq![
                        encode_utf8(set_cookie(name)),
                    ]
                },
                DecisionView::Picker(dest, clear) => routed is Ok && routed->Ok_0 is Picker
                    && routed->Ok_0->dest@ == dest && routed->Ok_0->clear == clear
                    && routed->Ok_0->sites@.map_values(|s: PickerSite| s@) == picker_lines(router),
                DecisionView::NotFound(clear) => routed is Ok && routed->Ok_0 is Respond && {
                    let reply = routed->Ok_0->Respond_0;
                    &&& reply.status == 404
                    &&& values_of(header_groups(reply.headers), "cache-control"@) == seq![
                        encode_utf8("no-store"@),
                    ]
                    &&& clear <==> values_of(header_groups(reply.headers), "set-cookie"@).len() > 0
                },
                DecisionView::ClearPin => routed is Ok && routed->Ok_0 is Respond && {
                    let reply = routed->Ok_0->Respond_0;
                    &&& reply.status == 303
                    &&& values_of(header_groups(reply.headers), "location"@) == seq![
                        encode_utf8("/"@),
                    ]
                    &&& values_of(header_groups(reply.headers), "set-cookie"@) == seq![
                        encode_utf8("yerd-site=; Path=/; Max-Age=0; SameSite=Lax"@),
                    ]
                },
            }
        }),
{
    let groups = header_groups(request.headers);
    let path = request_path(request.target@);
    let clear_cookie = "yerd-site=; Path=/; Max-Age=0; SameSite=Lax"@;
    match unbound_decision(
        router,
        request.method@,
        path,
        query_of(request.target@),
        site_directive(groups),
        first_text(groups, "cookie"@),
        first_text(groups, "accept"@),
    ) {
        DecisionView::Switch(name, location) => {
            crate::laws::replies::law_pins_are_set(location, set_cookie(name));
        },
        DecisionView::NotFound(clear) => {
            let kind = "text/plain; charset=utf-8"@;
            crate::laws::replies::law_pages(kind, clear);
            crate::replies::law_replies_name_the_proxy(kind, kind, kind, clear, clear);
        },
        DecisionView::ClearPin => {
            crate::laws::replies::law_pins_are_set("/"@, clear_cookie);
        },
        _ => {},
    }
}

/// A request without a readable `Host` is refused, whatever it asks for.
pub proof fn law_requests_need_a_host(
    r: Result<Begin, ProxyError>,
    router: RouterView,
    request: Request,
    listener: Listener,
    redirect_port: Option<u16>,
)
    requires
        is_dispatched(r, router, request, listener, redirect_port),
        first_text(header_groups(request.headers), "host"@) is None,
    ensures
        r is Ok,
        r->Ok_0 is Respond,
        r->Ok_0->Respond_0.status == 400,
        r->Ok_0->Respond_0.body@ == encode_utf8("Missing or invalid Host header.\n"@),
{
}

/// A request goes by its `Host`: to the site that it names, or to the upstream of a rule of
/// that site that covers the path; to the upstream of a proxied host; and to nothing where
/// nothing is known by that name. A secure host sends plain HTTP to its HTTPS form, with
/// the same path and query.
pub proof fn law_requests_go_by_their_host(
    r: Result<Begin, ProxyError>,
    router: RouterView,
    request: Request,
    listener: Listener,
    redirect_port: Option<u16>,
    host: Seq<char>,
)
    requires
        is_dispatched(r, router, request, listener, redirect_port),
        first_text(header_groups(request.headers), "host"@) == Some(host),
    ensures
        match resolved_site(router, host) {
            Some(i) => {
                let entry = router.sites[i];
                let path = request_path(request.target@);
                let taken_over = exists|j: int|
                    0 <= j < entry.proxy_rules.len() && covers(
                        (#[trigger] entry.proxy_rules[j]).prefix,
                        path,
                    );
                if goes_to_https(listener, entry.site.secure, false, redirect_port) {
                    is_sent_to(r, https_form(host, redirect_port->0, rooted_target(request.target@)))
                } else if taken_over {
                    r is Ok && r->Ok_0 is Forward && exists|j: int|
                        is_met(entry.proxy_rules, path, j) && r->Ok_0->Forward_0@.target == (
                        #[trigger] entry.proxy_rules[j]).target
                } else {
                    r is Ok && r->Ok_0 is Backend && r->Ok_0->Backend_0.host@ == host
                        && r->Ok_0->Backend_0.site@ == entry.site
                }
            },
            None => match proxy_for(router, host_name(host), 0) {
                Some(i) => if goes_to_https(
                    listener,
                    router.proxies[i].secure,
                    false,
                    redirect_port,
                ) {
                    is_sent_to(r, https_form(host, redirect_port->0, rooted_target(request.target@)))
                } else {
                    r is Ok && r->Ok_0 is Forward && r->Ok_0->Forward_0@.target
                        == router.proxies[i].target
                },
                None => !loopback(host) ==> r is Ok && r->Ok_0 is Respond
                    && r->Ok_0->Respond_0.status == 404,
            },
        },
{
    let target = rooted_target(request.target@);
    let routed = choose|routed: Routed| #[trigger]
        is_routed(Ok(routed), router, request, host) && is_begun(
            r,
            routed,
            listener,
            redirect_port,
            host,
            target,
        );
    match resolved_site(router, host) {
        Some(i) => {
            assert(is_routed(Ok(routed), router, request, host));
            if goes_to_https(listener, router.sites[i].site.secure, false, redirect_port) {
                assert(routed is Site && !routed->unbound && routed->site.secure);
                law_secure_hosts_redirect(r, routed, host, target, redirect_port->0);
            } else {
                law_site_requests_begin(
                    r,
                    routed,
                    router,
                    request,
                    host,
                    listener,
                    redirect_port,
                    target,
                    i,
                );
            }
        },
        None => {
            if let Some(i) = proxy_for(router, host_name(host), 0) {
                assert(is_routed(Ok(routed), router, request, host));
                if goes_to_https(listener, router.proxies[i].secure, false, redirect_port) {
                    law_secure_hosts_redirect(r, routed, host, target, redirect_port->0);
                }
            } else if !loopback(host) {
                assert(is_routed(Ok(routed), router, request, host));
            }
        },
    }
}

/// Whether a request is sent elsewhere for good; it is an error where no header can hold
/// the location.
pub open spec fn is_sent_to(r: Result<Begin, ProxyError>, location: Seq<char>) -> bool {
    &&& r is Ok <==> valid_value(encode_utf8(location))
    &&& r is Ok ==> r->Ok_0 is Respond && r->Ok_0->Respond_0.status == 301 && values_of(
        header_groups(r->Ok_0->Respond_0.headers),
        "location"@,
    ) == seq![encode_utf8(location)]
}

/// A request goes to the very backend that its site has: over HTTP to one that speaks it,
/// as a change of protocols where it asks for one; and over FastCGI to any other, which
/// cannot change protocols and is not asked to.
pub proof fn law_backends_are_used(
    r: Result<BackendStep, ProxyError>,
    host: Seq<char>,
    groups: Seq<(Seq<char>, Seq<Seq<u8>>)>,
    backend: Backend,
)
    requires
        is_chosen(r, host, groups, Ok(backend)),
    ensures
        r is Ok,
        backend is FrankenPhp && wants_upgrade(groups) ==> r->Ok_0 is Upgrade && r->Ok_0->Upgrade_addr
            == backend->FrankenPhp_addr,
        backend is FrankenPhp && !wants_upgrade(groups) ==> r->Ok_0 is Http && r->Ok_0->Http_addr
            == backend->FrankenPhp_addr,
        !(backend is FrankenPhp) && !wants_upgrade(groups) ==> r->Ok_0 is Php && r->Ok_0->Php_0
            == backend,
        !(backend is FrankenPhp) && wants_upgrade(groups) ==> r->Ok_0 is Respond
            && r->Ok_0->Respond_0.status == 501 && r->Ok_0->Respond_0.body@ == encode_utf8(
            "WebSocket upgrade not supported on FastCGI backends.\n"@,
        ),
{
}

/// Where there is no backend the request fails: with the error as it is where it speaks of
/// backends, and else with one that names the host and holds the text of the first.
pub proof fn law_missing_backends(
    r: Result<BackendStep, ProxyError>,
    host: Seq<char>,
    groups: Seq<(Seq<char>, Seq<Seq<u8>>)>,
    e: ProxyError,
)
    requires
        is_chosen(r, host, groups, Err(e)),
    ensures
        r is Err,
        e is BackendResolver || e is BackendConnect || e is BackendProtocol ==> r->Err_0 == e,
        e is Fcgi || e is Setup ==> r->Err_0 is BackendResolver && r->Err_0->BackendResolver_host@
            == host && r->Err_0->BackendResolver_source@ == error_text(e),
{
}

/// A FastCGI backend is connected to where it is: at its address, or at its socket.
pub proof fn law_endpoints(r: Result<Endpoint, String>, backend: Backend)
    requires
        is_endpoint(r, backend),
    ensures
        r is Ok <==> !(backend is FrankenPhp),
        backend is PhpFpmTcp ==> r->Ok_0 is Tcp && r->Ok_0->Tcp_0@ == backend->PhpFpmTcp_addr@,
        backend is PhpFpm ==> r->Ok_0 is Unix && r->Ok_0->Unix_0@ == backend->socket@,
{
}

/// A request that was answered is answered so, and one that failed with a `500`.
pub proof fn law_every_request_is_answered(
    r: Response<Vec<u8>>,
    outcome: Result<Response<Vec<u8>>, ProxyError>,
)
    requires
        is_handled(r, outcome),
    ensures
        outcome is Ok ==> r == outcome->Ok_0,
        outcome is Err ==> r.status == 500 && r.body@ == encode_utf8("Proxy internal error.\n"@),
{
}

/// A new site has its name and its root, is served from there, and is not secure.
pub proof fn law_new_sites(name: Seq<char>, root: Seq<char>)
    ensures
        parked_site(name, root).name == name,
        parked_site(name, root).document_root == root,
        served_root_of(parked_site(name, root)) == root,
        !parked_site(name, root).secure,
        parked_site(name, root).kind is Parked,
        linked_site(name, root).name == name,
        linked_site(name, root).document_root == root,
        served_root_of(linked_site(name, root)) == root,
        !linked_site(name, root).secure,
        linked_site(name, root).kind is Linked,
{
}

/// Over plain sites a host leads to the first site whose name and top domain it is, which
/// has no rules, and to nothing where no site has that name.
pub proof fn law_plain_routers(router: RouterView, tld: Seq<char>, sites: Seq<Site>, host: Seq<char>)
    requires
        is_plain_router(router, tld, sites),
    ensures
        match resolved_site(router, host) {
            Some(i) => {
                &&& 0 <= i < sites.len()
                &&& host_name(host) == sites[i]@.name + seq!['.'] + tld
                &&& router.sites[i].site == sites[i]@
                &&& router.sites[i].proxy_rules.len() == 0
                &&& router.sites[i].route_rules.len() == 0
                &&& forall|j: int|
                    0 <= j < i ==> (#[trigger] sites[j])@.name + seq!['.'] + tld != host_name(host)
            },
            None => forall|j: int|
                0 <= j < sites.len() ==> (#[trigger] sites[j])@.name + seq!['.'] + tld != host_name(
                    host,
                ),
        },
        proxy_for(router, host_name(host), 0) is None,
{
    law_hosts_lead_to_their_sites(router, host);
    law_names_are_found(router, host_name(host), 0);
    assert forall|j: int| 0 <= j < sites.len() implies known_as(
        router.sites[j],
        router.tld,
        host_name(host),
    ) == ((#[trigger] sites[j])@.name + seq!['.'] + tld == host_name(host)) by {
        assert(router.sites[j].primary is None);
    }
}

} // verus!
