//! Laws of [`unbound`](crate::unbound).

use vstd::prelude::*;
use vstd::utf8::{encode_utf8, encode_utf8_decode_utf8, encode_utf8_valid_utf8, valid_utf8};

use crate::headers::values_of;
use crate::sites::{host_name, meant_site, resolved_site, site_named, RouterView};
use crate::text::{has_part, lemma_split_first, split, trimmed};
use crate::unbound::{
    clear_switch, cookie_site, destination, first_pin, loopback, pair_value, set_cookie,
    site_directive, stripped_slashes, switch_of, unbound_decision, DecisionView,
};

verus! {

/// The leading slashes and backslashes of a path, and what follows them.
pub proof fn lemma_stripped_slashes(path: Seq<char>)
    ensures
        stripped_slashes(path).len() <= path.len(),
        stripped_slashes(path) == path.skip(path.len() - stripped_slashes(path).len()),
        forall|i: int|
            0 <= i < path.len() - stripped_slashes(path).len() ==> (#[trigger] path[i]) == '/'
                || path[i] == '\\',
        stripped_slashes(path).len() > 0 ==> stripped_slashes(path)[0] != '/' && stripped_slashes(
            path,
        )[0] != '\\',
    decreases path.len(),
{
    if path.len() > 0 && (path[0] == '/' || path[0] == '\\') {
        let rest = path.skip(1);
        lemma_stripped_slashes(rest);
        let n = path.len() - stripped_slashes(path).len();
        assert(rest.skip(n - 1) =~= path.skip(n));
        assert forall|i: int| 0 <= i < n implies (#[trigger] path[i]) == '/' || path[i] == '\\' by {
            if i > 0 {
                assert(path[i] == rest[i - 1]);
            }
        }
    } else {
        assert(path.skip(0) =~= path);
    }
}

/// Where a switch or the picker leads: to the path, its leading slashes and backslashes
/// made one slash, and then the whole query of the request.
pub proof fn law_destinations_keep_path_and_query(path: Seq<char>, q: Seq<char>)
    ensures
        q.len() > 0 ==> destination(path, Some(q)) == destination(path, None).push('?') + q,
        q.len() > 0 ==> q.is_suffix_of(destination(path, Some(q))),
        destination(path, Some(Seq::empty())) == destination(path, None),
        exists|n: int|
            0 <= n <= path.len() && destination(path, None) == seq!['/'] + #[trigger] path.skip(n)
                && (forall|i: int|
                0 <= i < n ==> (#[trigger] path[i]) == '/' || path[i] == '\\') && (n < path.len()
                ==> path[n] != '/' && path[n] != '\\'),
{
    let to = destination(path, Some(q));
    if q.len() > 0 {
        assert(q =~= to.subrange(to.len() - q.len(), to.len() as int));
    }
    lemma_stripped_slashes(path);
    let n = path.len() - stripped_slashes(path).len();
    assert(destination(path, None) == seq!['/'] + path.skip(n));
    if n < path.len() {
        assert(path[n] == stripped_slashes(path)[0]);
    }
}

/// `/~site/rest` names a site and a rest, whatever they are; what does not begin so, or
/// names no site, is no switch.
pub proof fn law_switches_are_read(site: Seq<char>, rest: Seq<char>, path: Seq<char>)
    requires
        site.len() > 0,
        !site.contains('/'),
        rest.len() == 0 || rest[0] == '/',
    ensures
        switch_of(seq!['/', '~'] + site + rest) == Some((site, rest)),
        switch_of(seq!['/', '~']) is None,
        switch_of(seq!['/', '~', '/'] + path) is None,
        path.len() < 2 || path[0] != '/' || path[1] != '~' ==> switch_of(path) is None,
        clear_switch(path) <==> path == seq!['/', '~'] || path == seq!['/', '~', '/'],
{
    reveal_strlit("/~");
    reveal_strlit("/~/");
    assert("/~"@ =~= seq!['/', '~']);
    assert("/~/"@ =~= seq!['/', '~', '/']);
    let whole = seq!['/', '~'] + site + rest;
    assert("/~"@ =~= whole.subrange(0, 2));
    assert(whole.skip(2) =~= site + rest);
    lemma_split_first(site, rest.skip(1), '/');
    if rest.len() == 0 {
        assert(site + rest =~= site);
        assert(site.skip(site.len() as int) =~= rest);
    } else {
        assert(site + rest =~= site.push('/') + rest.skip(1));
        assert((site + rest).skip(site.len() as int) =~= rest);
    }
    let none = Seq::<char>::empty();
    let bare = seq!['/', '~'];
    assert("/~"@ =~= bare.subrange(0, 2));
    assert(bare.skip(2) =~= none);
    lemma_split_first(none, none, '/');
    let empty = seq!['/', '~', '/'] + path;
    assert("/~"@ =~= empty.subrange(0, 2));
    assert(empty.skip(2) =~= none.push('/') + path);
    lemma_split_first(none, path, '/');
    if "/~"@.is_prefix_of(path) {
        assert(path.subrange(0, 2) == "/~"@);
        assert(path[0] == path.subrange(0, 2)[0] && path[1] == path.subrange(0, 2)[1]);
    }
}

/// Whether a piece of a `Cookie` header sets the pin, to `value`.
pub open spec fn sets_pin(piece: Seq<char>, value: Seq<char>) -> bool {
    trimmed(piece) == "yerd-site="@ + value
}

proof fn lemma_pair_value(piece: Seq<char>)
    ensures
        match pair_value(trimmed(piece), "yerd-site"@) {
            Some(v) => sets_pin(piece, v),
            None => forall|v: Seq<char>| !(#[trigger] sets_pin(piece, v)),
        },
{
    reveal_strlit("yerd-site");
    reveal_strlit("yerd-site=");
    let t = trimmed(piece);
    let lead = "yerd-site"@.push('=');
    assert("yerd-site="@ =~= lead);
    if lead.is_prefix_of(t) {
        assert(t =~= t.subrange(0, 10) + t.skip(10));
    } else {
        assert forall|v: Seq<char>| !(#[trigger] sets_pin(piece, v)) by {
            if sets_pin(piece, v) {
                assert((lead + v).subrange(0, 10) =~= lead);
            }
        }
    }
}

proof fn lemma_first_pin_is(pairs: Seq<Seq<char>>)
    ensures
        match first_pin(pairs) {
            Some(v) => exists|i: int|
                0 <= i < pairs.len() && sets_pin(#[trigger] pairs[i], v) && (forall|j: int, w: Seq<char>|
                    0 <= j < i ==> !(#[trigger] sets_pin(pairs[j], w))),
            None => forall|j: int, w: Seq<char>|
                0 <= j < pairs.len() ==> !(#[trigger] sets_pin(pairs[j], w)),
        },
    decreases pairs.len(),
{
    if pairs.len() > 0 {
        let head = pairs.drop_last();
        lemma_first_pin_is(head);
        lemma_pair_value(pairs.last());
        match first_pin(head) {
            Some(v) => {
                let i = choose|i: int|
                    0 <= i < head.len() && sets_pin(#[trigger] head[i], v) && (forall|
                        j: int,
                        w: Seq<char>,
                    |
                        0 <= j < i ==> !(#[trigger] sets_pin(head[j], w)));
                assert(pairs[i] == head[i]);
                assert forall|j: int, w: Seq<char>| 0 <= j < i implies !(#[trigger] sets_pin(
                    pairs[j],
                    w,
                )) by {
                    assert(pairs[j] == head[j]);
                }
            },
            None => {
                let n = pairs.len() - 1;
                assert(pairs[n] == pairs.last());
                assert forall|j: int, w: Seq<char>| 0 <= j < n implies !(#[trigger] sets_pin(
                    pairs[j],
                    w,
                )) by {
                    assert(pairs[j] == head[j]);
                }
                if let Some(v) = first_pin(pairs) {
                    assert(sets_pin(pairs[n], v));
                }
            },
        }
    }
}

/// Of all cookies of a request, the first that sets the pin does, whatever stands before
/// and behind it; an empty one pins nothing.
pub proof fn law_the_first_pin_counts(cookie: Seq<char>)
    ensures
        ({
            let pieces = split(cookie, ';');
            match cookie_site(cookie) {
                Some(v) => v.len() > 0 && exists|i: int|
                    0 <= i < pieces.len() && sets_pin(#[trigger] pieces[i], v) && (forall|
                        j: int,
                        w: Seq<char>,
                    |
                        0 <= j < i ==> !(#[trigger] sets_pin(pieces[j], w))),
                None => (forall|j: int, w: Seq<char>|
                    0 <= j < pieces.len() ==> !(#[trigger] sets_pin(pieces[j], w))) || exists|i: int|
                    0 <= i < pieces.len() && sets_pin(#[trigger] pieces[i], Seq::empty()) && (forall|
                        j: int,
                        w: Seq<char>,
                    |
                        0 <= j < i ==> !(#[trigger] sets_pin(pieces[j], w))),
            }
        }),
{
    lemma_first_pin_is(split(cookie, ';'));
    if let Some(v) = first_pin(split(cookie, ';')) {
        if v.len() == 0 {
            assert(v =~= Seq::empty());
        }
    }
}

/// The cookie that pins a site sets its name, for the whole origin, and is kept to the
/// site.
pub proof fn law_set_cookies(name: Seq<char>)
    ensures
        set_cookie(name) == "yerd-site="@ + name + "; Path=/; SameSite=Lax"@,
        !name.contains(';') ==> split(set_cookie(name), ';')[0] == "yerd-site="@ + name,
{
    reveal_strlit("yerd-site=");
    reveal_strlit("; Path=/; SameSite=Lax");
    if !name.contains(';') {
        let pin = "yerd-site="@ + name;
        assert(!pin.contains(';')) by {
            if pin.contains(';') {
                let k = choose|k: int| 0 <= k < pin.len() && pin[k] == ';';
                if k >= 10 {
                    assert(name[k - 10] == ';');
                } else {
                    assert("yerd-site="@[k] != ';');
                }
            }
        }
        let tail = "; Path=/; SameSite=Lax"@;
        assert(tail[0] == ';');
        assert(pin + tail =~= pin.push(';') + tail.skip(1));
        lemma_split_first(pin, tail.skip(1), ';');
    }
}

/// This machine is called `localhost`, or by one of its two loopback addresses.
pub proof fn law_loopback_names(host: Seq<char>)
    ensures
        loopback(host) <==> host_name(host) == "localhost"@ || host_name(host) == "127.0.0.1"@
            || host_name(host) == "[::1]"@,
{
}

/// Whether a request to this machine is a browser's to a page.
pub open spec fn is_navigation(method: Seq<char>, accept: Option<Seq<char>>) -> bool {
    method == "GET"@ && accept is Some && has_part(accept->0, "text/html"@)
}

/// The page to pick from, for a browser; for anyone else nothing.
pub open spec fn offered(
    decision: DecisionView,
    navigation: bool,
    dest: Seq<char>,
    clear: bool,
) -> bool {
    decision == if navigation {
        DecisionView::Picker(dest, clear)
    } else {
        DecisionView::NotFound(clear)
    }
}

/// What becomes of a request to this machine. A header that names a site comes first: its
/// site is served, or nothing is found. Then come the path that drops the pin, the path
/// that switches, with the rest of the path and the whole query for its location, and the
/// cookie that pins. Where none of them names a site that is there, a browser is offered
/// all sites.
pub proof fn law_loopback_requests(
    router: RouterView,
    method: Seq<char>,
    path: Seq<char>,
    query: Option<Seq<char>>,
    site_header: Option<Seq<char>>,
    cookie: Option<Seq<char>>,
    accept: Option<Seq<char>>,
)
    ensures
        ({
            let decision = unbound_decision(
                router,
                method,
                path,
                query,
                site_header,
                cookie,
                accept,
            );
            let by_header = site_header is Some && trimmed(site_header->0).len() > 0;
            let named = trimmed(site_header->0);
            let dropped = path == "/~"@ || path == "/~/"@;
            let (site, rest) = switch_of(path)->0;
            let switched = switch_of(path) is Some;
            let pinned = cookie is Some && cookie_site(cookie->0) is Some;
            let pin = cookie_site(cookie->0)->0;
            let navigation = is_navigation(method, accept);
            &&& by_header ==> match meant_site(router, named) {
                Some(i) => decision == DecisionView::Serve(router.sites[i].site),
                None => decision == DecisionView::NotFound(false),
            }
            &&& !by_header && dropped ==> decision == DecisionView::ClearPin
            &&& !by_header && !dropped && switched ==> match meant_site(router, site) {
                Some(i) => decision == DecisionView::Switch(
                    router.sites[i].site.name,
                    destination(rest, query),
                ),
                None => offered(decision, navigation, destination(rest, query), false),
            }
            &&& !by_header && !dropped && !switched && pinned ==> match site_named(router, pin, 0) {
                Some(i) => decision == DecisionView::Serve(router.sites[i].site),
                None => offered(decision, navigation, destination(path, query), true),
            }
            &&& !by_header && !dropped && !switched && !pinned ==> offered(
                decision,
                navigation,
                destination(path, query),
                false,
            )
        }),
{
}

/// What names a site is read as a host name first, and then as the site's own name.
pub proof fn law_sites_are_meant_by_host_or_name(router: RouterView, value: Seq<char>)
    ensures
        resolved_site(router, value) is Some ==> meant_site(router, value) == resolved_site(
            router,
            value,
        ),
        resolved_site(router, value) is None ==> meant_site(router, value) == site_named(
            router,
            value,
            0,
        ),
{
}

/// The header that names a site is read under its name, and only where that is missing
/// under its alias; what is not UTF-8 names nothing.
pub proof fn law_site_headers(groups: Seq<(Seq<char>, Seq<Seq<u8>>)>, text: Seq<char>)
    ensures
        values_of(groups, "x-yerd-site"@).len() > 0 && values_of(groups, "x-yerd-site"@)[0]
            == encode_utf8(text) ==> site_directive(groups) == Some(text),
        values_of(groups, "x-yerd-site"@).len() == 0 && values_of(groups, "x-yerdsite"@).len() > 0
            && values_of(groups, "x-yerdsite"@)[0] == encode_utf8(text) ==> site_directive(groups)
            == Some(text),
        values_of(groups, "x-yerd-site"@).len() == 0 && values_of(groups, "x-yerdsite"@).len() == 0
            ==> site_directive(groups) is None,
        values_of(groups, "x-yerd-site"@).len() > 0 && !valid_utf8(
            values_of(groups, "x-yerd-site"@)[0],
        ) ==> site_directive(groups) is None,
        values_of(groups, "x-yerd-site"@).len() == 0 && values_of(groups, "x-yerdsite"@).len() > 0
            && !valid_utf8(values_of(groups, "x-yerdsite"@)[0]) ==> site_directive(groups) is None,
{
    encode_utf8_valid_utf8(text);
    encode_utf8_decode_utf8(text);
}

} // verus!
