//! The sites that the proxy knows, and how a host name or a path picks among them.

use vstd::prelude::*;

use crate::text::{
    chars_of, first_char, has_char, join_path, joined, last_char, lower, lower_str, split,
    split_str, str_eq, string_of, strip_prefix, views,
};

verus! {

/// How a site came to be known.
#[derive(Debug, Clone, Copy, PartialEq, Eq, Structural)]
pub enum SiteKind {
    /// It lies in a parked directory.
    Parked,
    /// It was linked by itself.
    Linked,
}

/// One site.
#[derive(Debug)]
pub struct Site {
    /// Its name, the first label of its host name.
    pub name: String,
    /// The root of its tree.
    pub document_root: String,
    /// The directory below the root that is served, or `""`.
    pub web_subpath: String,
    /// Whether plain HTTP requests are redirected.
    pub secure: bool,
    /// How it came to be known.
    pub kind: SiteKind,
}

/// What a [`Site`] is.
pub struct SiteView {
    /// Its name.
    pub name: Seq<char>,
    /// The root of its tree.
    pub document_root: Seq<char>,
    /// The directory below the root that is served.
    pub web_subpath: Seq<char>,
    /// Whether plain HTTP requests are redirected.
    pub secure: bool,
    /// How it came to be known.
    pub kind: SiteKind,
}

impl View for Site {
    type V = SiteView;

    open spec fn view(&self) -> SiteView {
        SiteView {
            name: self.name@,
            document_root: self.document_root@,
            web_subpath: self.web_subpath@,
            secure: self.secure,
            kind: self.kind,
        }
    }
}

impl Clone for Site {
    fn clone(&self) -> (r: Site)
        ensures
            r@ == self@,
    {
        Site {
            name: self.name.clone(),
            document_root: self.document_root.clone(),
            web_subpath: self.web_subpath.clone(),
            secure: self.secure,
            kind: self.kind,
        }
    }
}

/// The directory that a site serves.
pub open spec fn served_root_of(site: SiteView) -> Seq<char> {
    if site.web_subpath.len() == 0 {
        site.document_root
    } else {
        joined(site.document_root, site.web_subpath)
    }
}

/// A plain site in a parked directory.
pub open spec fn parked_site(name: Seq<char>, document_root: Seq<char>) -> SiteView {
    SiteView {
        name,
        document_root,
        web_subpath: Seq::empty(),
        secure: false,
        kind: SiteKind::Parked,
    }
}

/// A plain linked site.
pub open spec fn linked_site(name: Seq<char>, document_root: Seq<char>) -> SiteView {
    SiteView {
        name,
        document_root,
        web_subpath: Seq::empty(),
        secure: false,
        kind: SiteKind::Linked,
    }
}

impl Site {
    /// A plain site in a parked directory.
    pub fn parked(name: &str, document_root: &str) -> (r: Site)
        ensures
            r@ == parked_site(name@, document_root@),
    {
        Site {
            name: name.to_owned(),
            document_root: document_root.to_owned(),
            web_subpath: String::new(),
            secure: false,
            kind: SiteKind::Parked,
        }
    }

    /// A plain linked site.
    pub fn linked(name: &str, document_root: &str) -> (r: Site)
        ensures
            r@ == linked_site(name@, document_root@),
    {
        Site {
            name: name.to_owned(),
            document_root: document_root.to_owned(),
            web_subpath: String::new(),
            secure: false,
            kind: SiteKind::Linked,
        }
    }

    /// The directory that is served.
    pub fn served_root(&self) -> (r: String)
        ensures
            r@ == served_root_of(self@),
    {
        if self.web_subpath.as_str().is_empty() {
            self.document_root.clone()
        } else {
            join_path(self.document_root.as_str(), self.web_subpath.as_str())
        }
    }
}

/// A path prefix, and what answers below it: the upstream of a proxy rule, or the file
/// under the served root of a routing rule.
#[derive(Debug)]
pub struct RouteRule {
    /// The path prefix.
    pub prefix: String,
    /// What answers.
    pub target: String,
}

/// What a [`RouteRule`] is.
pub struct RuleView {
    /// The path prefix.
    pub prefix: Seq<char>,
    /// What answers.
    pub target: Seq<char>,
}

impl View for RouteRule {
    type V = RuleView;

    open spec fn view(&self) -> RuleView {
        RuleView { prefix: self.prefix@, target: self.target@ }
    }
}

impl Clone for RouteRule {
    fn clone(&self) -> (r: RouteRule)
        ensures
            r@ == self@,
    {
        RouteRule { prefix: self.prefix.clone(), target: self.target.clone() }
    }
}

/// The views of rules.
pub open spec fn rule_views(rules: Seq<RouteRule>) -> Seq<RuleView> {
    rules.map_values(|r: RouteRule| r@)
}

/// `prefix` without a `/` at its end.
pub open spec fn bare_prefix(prefix: Seq<char>) -> Seq<char> {
    if prefix.len() > 0 && prefix.last() == '/' {
        prefix.drop_last()
    } else {
        prefix
    }
}

/// Whether `path` is `prefix` or lies below it.
pub open spec fn covers(prefix: Seq<char>, path: Seq<char>) -> bool {
    path == bare_prefix(prefix) || bare_prefix(prefix).push('/').is_prefix_of(path)
}

/// The rule with the longest prefix that covers `path`, the first of equals.
pub open spec fn best_rule(rules: Seq<RuleView>, path: Seq<char>) -> Option<int>
    decreases rules.len(),
{
    if rules.len() == 0 {
        None
    } else {
        let best = best_rule(rules.drop_last(), path);
        let better = covers(rules.last().prefix, path) && (best is Some ==> bare_prefix(
            rules.last().prefix,
        ).len() > bare_prefix(rules[best->0].prefix).len());
        if better {
            Some(rules.len() - 1)
        } else {
            best
        }
    }
}

/// The rule that a path meets covers it, and no other rule that does has a longer
/// prefix; where none is met, none covers it.
pub proof fn law_best_rule_is_longest(rules: Seq<RuleView>, path: Seq<char>)
    ensures
        match best_rule(rules, path) {
            Some(i) => {
                &&& 0 <= i < rules.len()
                &&& covers(rules[i].prefix, path)
                &&& forall|j: int|
                    0 <= j < rules.len() && covers((#[trigger] rules[j]).prefix, path)
                        ==> bare_prefix(rules[j].prefix).len() <= bare_prefix(rules[i].prefix).len()
            },
            None => forall|j: int|
                0 <= j < rules.len() ==> !covers((#[trigger] rules[j]).prefix, path),
        },
    decreases rules.len(),
{
    if rules.len() > 0 {
        let before = rules.drop_last();
        law_best_rule_is_longest(before, path);
        assert forall|j: int| 0 <= j < before.len() implies rules[j] == #[trigger] before[j] by {}
        assert forall|j: int| 0 <= j < rules.len() && covers((#[trigger] rules[j]).prefix, path)
            implies best_rule(rules, path) is Some && bare_prefix(rules[j].prefix).len()
            <= bare_prefix(rules[best_rule(rules, path)->0].prefix).len() by {
            if j < before.len() {
                assert(before[j] == rules[j]);
            }
        }
    }
}

/// Whether `path` is `prefix` or lies below it.
fn is_covered(prefix: &str, path: &str) -> (r: bool)
    ensures
        r == covers(prefix@, path@),
{
    let mut bare: String = prefix.to_owned();
    match last_char(prefix) {
        Some(c) => {
            if c == '/' {
                let chars: Vec<char> = chars_of(prefix);
                bare = string_of(&chars, 0, chars.len() - 1);
                assert(bare@ =~= prefix@.drop_last());
            }
        },
        None => {},
    }
    if str_eq(path, bare.as_str()) {
        return true;
    }
    bare.push('/');
    strip_prefix(path, bare.as_str()).is_some()
}

/// The length of a prefix without a `/` at its end.
fn bare_len(prefix: &str) -> (r: usize)
    ensures
        r == bare_prefix(prefix@).len(),
{
    let chars: Vec<char> = chars_of(prefix);
    if chars.len() > 0 && chars[chars.len() - 1] == '/' {
        chars.len() - 1
    } else {
        chars.len()
    }
}

/// The rule that `path` meets.
pub fn match_rule(rules: &Vec<RouteRule>, path: &str) -> (r: Option<usize>)
    ensures
        match r {
            Some(i) => best_rule(rule_views(rules@), path@) == Some(i as int) && i < rules@.len(),
            None => best_rule(rule_views(rules@), path@) is None,
        },
{
    let mut best: Option<usize> = None;
    let mut i: usize = 0;
    let ghost all = rule_views(rules@);
    while i < rules.len()
        invariant
            i <= rules@.len(),
            all == rule_views(rules@),
            match best {
                Some(b) => best_rule(all.take(i as int), path@) == Some(b as int) && b < i,
                None => best_rule(all.take(i as int), path@) is None,
            },
        decreases rules@.len() - i,
    {
        proof {
            assert(all.take(i + 1).drop_last() =~= all.take(i as int));
            assert(all.take(i + 1).last() == rules@[i as int]@);
        }
        let prefix: &str = rules[i].prefix.as_str();
        if is_covered(prefix, path) {
            let better: bool = match best {
                Some(b) => bare_len(prefix) > bare_len(rules[b].prefix.as_str()),
                None => true,
            };
            if better {
                best = Some(i);
            }
        }
        i = i + 1;
    }
    assert(all.take(i as int) =~= all);
    best
}

/// A site with the rules that hold for it.
#[derive(Debug)]
pub struct SiteEntry {
    /// The site.
    pub site: Site,
    /// A host name that it is known by first, where it is not its name under the top
    /// domain.
    pub primary: Option<String>,
    /// Path prefixes that go to an upstream.
    pub proxy_rules: Vec<RouteRule>,
    /// Path prefixes that go to a file, where no other file answers.
    pub route_rules: Vec<RouteRule>,
}

/// What a [`SiteEntry`] is.
pub struct EntryView {
    /// The site.
    pub site: SiteView,
    /// Its first host name.
    pub primary: Option<Seq<char>>,
    /// Path prefixes that go to an upstream.
    pub proxy_rules: Seq<RuleView>,
    /// Path prefixes that go to a file.
    pub route_rules: Seq<RuleView>,
}

impl View for SiteEntry {
    type V = EntryView;

    open spec fn view(&self) -> EntryView {
        EntryView {
            site: self.site@,
            primary: match self.primary {
                Some(p) => Some(p@),
                None => None,
            },
            proxy_rules: rule_views(self.proxy_rules@),
            route_rules: rule_views(self.route_rules@),
        }
    }
}

/// A host that is proxied as a whole.
#[derive(Debug)]
pub struct HostProxy {
    /// Its host name.
    pub domain: String,
    /// The upstream.
    pub target: String,
    /// Whether plain HTTP requests are redirected.
    pub secure: bool,
}

/// What a [`HostProxy`] is.
pub struct ProxyView {
    /// Its host name.
    pub domain: Seq<char>,
    /// The upstream.
    pub target: Seq<char>,
    /// Whether plain HTTP requests are redirected.
    pub secure: bool,
}

impl View for HostProxy {
    type V = ProxyView;

    open spec fn view(&self) -> ProxyView {
        ProxyView { domain: self.domain@, target: self.target@, secure: self.secure }
    }
}

/// Everything that requests are routed by.
#[derive(Debug)]
pub struct SiteRouter {
    /// The top domain of all sites.
    pub tld: String,
    /// The sites.
    pub sites: Vec<SiteEntry>,
    /// The hosts that are proxied as a whole.
    pub proxies: Vec<HostProxy>,
}

/// What a [`SiteRouter`] is.
pub struct RouterView {
    /// The top domain of all sites.
    pub tld: Seq<char>,
    /// The sites.
    pub sites: Seq<EntryView>,
    /// The hosts that are proxied as a whole.
    pub proxies: Seq<ProxyView>,
}

impl View for SiteRouter {
    type V = RouterView;

    open spec fn view(&self) -> RouterView {
        RouterView {
            tld: self.tld@,
            sites: self.sites@.map_values(|e: SiteEntry| e@),
            proxies: self.proxies@.map_values(|p: HostProxy| p@),
        }
    }
}

/// A `Host` value without its port: an address in brackets ends with its bracket,
/// any other host before the first colon.
pub open spec fn without_port(host: Seq<char>) -> Seq<char> {
    if host.len() > 0 && host[0] == '[' {
        if host.contains(']') {
            split(host, ']')[0].push(']')
        } else {
            host
        }
    } else {
        split(host, ':')[0]
    }
}

/// The host name in a `Host` value: without port or final dot, in lower case.
pub open spec fn host_name(host: Seq<char>) -> Seq<char> {
    let bare = without_port(host);
    lower(
        if bare.len() > 0 && bare.last() == '.' {
            bare.drop_last()
        } else {
            bare
        },
    )
}

/// The host name that a site has under the top domain.
pub open spec fn default_domain(name: Seq<char>, tld: Seq<char>) -> Seq<char> {
    name.push('.') + tld
}

/// Whether a site answers to the host name `host`.
pub open spec fn answers(entry: EntryView, tld: Seq<char>, host: Seq<char>) -> bool {
    host == default_domain(entry.site.name, tld) || entry.primary == Some(host)
}

/// The first site at or after `from` that answers to a host name.
pub open spec fn site_for(router: RouterView, host: Seq<char>, from: int) -> Option<int>
    decreases router.sites.len() - from,
{
    if from < 0 || from >= router.sites.len() {
        None
    } else if answers(router.sites[from], router.tld, host) {
        Some(from)
    } else {
        site_for(router, host, from + 1)
    }
}

/// The first proxied host at or after `from` with a host name.
pub open spec fn proxy_for(router: RouterView, host: Seq<char>, from: int) -> Option<int>
    decreases router.proxies.len() - from,
{
    if from < 0 || from >= router.proxies.len() {
        None
    } else if router.proxies[from].domain == host {
        Some(from)
    } else {
        proxy_for(router, host, from + 1)
    }
}

/// The first site at or after `from` that is called `name`.
pub open spec fn site_named(router: RouterView, name: Seq<char>, from: int) -> Option<int>
    decreases router.sites.len() - from,
{
    if from < 0 || from >= router.sites.len() {
        None
    } else if router.sites[from].site.name == name {
        Some(from)
    } else {
        site_named(router, name, from + 1)
    }
}

/// The site for a `Host` value.
pub open spec fn resolved_site(router: RouterView, host: Seq<char>) -> Option<int> {
    site_for(router, host_name(host), 0)
}

/// The site that a host name or a bare name means: by host name first.
pub open spec fn meant_site(router: RouterView, value: Seq<char>) -> Option<int> {
    match resolved_site(router, value) {
        Some(i) => Some(i),
        None => site_named(router, value, 0),
    }
}

/// A site that was found is one of the router's.
pub proof fn lemma_found_site(router: RouterView, value: Seq<char>, from: int)
    ensures
        site_for(router, value, from) is Some ==> 0 <= site_for(router, value, from)->0
            < router.sites.len(),
        site_named(router, value, from) is Some ==> 0 <= site_named(router, value, from)->0
            < router.sites.len() && router.sites[site_named(router, value, from)->0].site.name
            == value,
    decreases router.sites.len() - from,
{
    if 0 <= from < router.sites.len() {
        lemma_found_site(router, value, from + 1);
    }
}

/// The name of a site that is there is found.
pub proof fn lemma_name_is_found(router: RouterView, name: Seq<char>, from: int, i: int)
    requires
        0 <= from <= i < router.sites.len(),
        router.sites[i].site.name == name,
    ensures
        site_named(router, name, from) is Some,
    decreases i - from,
{
    if router.sites[from].site.name != name {
        lemma_name_is_found(router, name, from + 1, i);
    }
}

/// What a `Host` value leads to.
#[derive(Debug, Clone, Copy, PartialEq, Eq, Structural)]
pub enum Route {
    /// The site at this place.
    Php(usize),
    /// The proxied host at this place.
    Proxy(usize),
}

/// A `Host` value without its port.
pub fn host_without_port(host: &str) -> (r: String)
    ensures
        r@ == without_port(host@),
{
    let bracketed: bool = match first_char(host) {
        Some(c) => c == '[',
        None => false,
    };
    if bracketed && !has_char(host, ']') {
        return host.to_owned();
    }
    let pieces: Vec<String> = split_str(host, if bracketed { ']' } else { ':' });
    let mut bare: String = pieces[0].clone();
    assert(views(pieces@)[0] == pieces@[0]@);
    if bracketed {
        bare.push(']');
    }
    bare
}

/// The host name in a `Host` value.
pub fn host_name_of(host: &str) -> (r: String)
    ensures
        r@ == host_name(host@),
{
    let bare: String = host_without_port(host);
    let dotted: bool = match last_char(bare.as_str()) {
        Some(c) => c == '.',
        None => false,
    };
    if dotted {
        let chars: Vec<char> = chars_of(bare.as_str());
        let cut: String = string_of(&chars, 0, chars.len() - 1);
        assert(cut@ =~= bare@.drop_last());
        lower_str(cut.as_str())
    } else {
        lower_str(bare.as_str())
    }
}

/// The host name that a site has under the top domain.
pub fn default_domain_of(name: &str, tld: &str) -> (r: String)
    ensures
        r@ == default_domain(name@, tld@),
{
    let mut r: String = name.to_owned();
    r.push('.');
    r.append(tld);
    r
}

/// Whether `r` routes by the names of `sites` alone.
pub open spec fn is_plain_router(r: RouterView, tld: Seq<char>, sites: Seq<Site>) -> bool {
    &&& r.tld == tld
    &&& r.sites.len() == sites.len()
    &&& forall|i: int|
        0 <= i < sites.len() ==> (#[trigger] r.sites[i]) == (EntryView {
            site: sites[i]@,
            primary: None,
            proxy_rules: Seq::empty(),
            route_rules: Seq::empty(),
        })
    &&& r.proxies.len() == 0
}

impl SiteRouter {
    /// A router over plain sites.
    pub fn from_sites(tld: &str, sites: Vec<Site>) -> (r: SiteRouter)
        ensures
            is_plain_router(r@, tld@, sites@),
    {
        let mut entries: Vec<SiteEntry> = Vec::new();
        let mut i: usize = 0;
        while i < sites.len()
            invariant
                i <= sites@.len(),
                entries@.len() == i,
                forall|j: int|
                    0 <= j < i ==> (#[trigger] entries@[j])@ == (EntryView {
                        site: sites@[j]@,
                        primary: None,
                        proxy_rules: Seq::empty(),
                        route_rules: Seq::empty(),
                    }),
            decreases sites@.len() - i,
        {
            let entry: SiteEntry = SiteEntry {
                site: sites[i].clone(),
                primary: None,
                proxy_rules: Vec::new(),
                route_rules: Vec::new(),
            };
            assert(rule_views(entry.proxy_rules@) =~= Seq::empty());
            assert(rule_views(entry.route_rules@) =~= Seq::empty());
            entries.push(entry);
            i = i + 1;
        }
        SiteRouter { tld: tld.to_owned(), sites: entries, proxies: Vec::new() }
    }

    /// The site for a `Host` value.
    pub fn resolve(&self, host: &str) -> (r: Option<usize>)
        ensures
            match r {
                Some(i) => resolved_site(self@, host@) == Some(i as int) && i < self.sites@.len(),
                None => resolved_site(self@, host@) is None,
            },
    {
        let name: String = host_name_of(host);
        let mut i: usize = 0;
        while i < self.sites.len()
            invariant
                i <= self.sites@.len(),
                name@ == host_name(host@),
                site_for(self@, name@, 0) == site_for(self@, name@, i as int),
            decreases self.sites@.len() - i,
        {
            let entry: &SiteEntry = &self.sites[i];
            assert(self@.sites[i as int] == entry@);
            let primary: bool = match &entry.primary {
                Some(p) => str_eq(p.as_str(), name.as_str()),
                None => false,
            };
            if primary || str_eq(
                name.as_str(),
                default_domain_of(entry.site.name.as_str(), self.tld.as_str()).as_str(),
            ) {
                return Some(i);
            }
            i = i + 1;
        }
        None
    }

    /// The site called `name`.
    pub fn get(&self, name: &str) -> (r: Option<usize>)
        ensures
            match r {
                Some(i) => site_named(self@, name@, 0) == Some(i as int) && i < self.sites@.len(),
                None => site_named(self@, name@, 0) is None,
            },
    {
        let mut i: usize = 0;
        while i < self.sites.len()
            invariant
                i <= self.sites@.len(),
                site_named(self@, name@, 0) == site_named(self@, name@, i as int),
            decreases self.sites@.len() - i,
        {
            assert(self@.sites[i as int] == self.sites@[i as int]@);
            if str_eq(self.sites[i].site.name.as_str(), name) {
                return Some(i);
            }
            i = i + 1;
        }
        None
    }

    /// The site that a host name or a bare name means.
    pub fn find(&self, value: &str) -> (r: Option<usize>)
        ensures
            match r {
                Some(i) => meant_site(self@, value@) == Some(i as int) && i < self.sites@.len(),
                None => meant_site(self@, value@) is None,
            },
    {
        match self.resolve(value) {
            Some(i) => Some(i),
            None => self.get(value),
        }
    }

    /// What a `Host` value leads to: a site, or else a proxied host.
    pub fn resolve_route(&self, host: &str) -> (r: Option<Route>)
        ensures
            match r {
                Some(Route::Php(i)) => resolved_site(self@, host@) == Some(i as int) && i
                    < self.sites@.len(),
                Some(Route::Proxy(i)) => resolved_site(self@, host@) is None && proxy_for(
                    self@,
                    host_name(host@),
                    0,
                ) == Some(i as int) && i < self.proxies@.len(),
                None => resolved_site(self@, host@) is None && proxy_for(
                    self@,
                    host_name(host@),
                    0,
                ) is None,
            },
    {
        if let Some(i) = self.resolve(host) {
            return Some(Route::Php(i));
        }
        let name: String = host_name_of(host);
        let mut i: usize = 0;
        while i < self.proxies.len()
            invariant
                i <= self.proxies@.len(),
                name@ == host_name(host@),
                proxy_for(self@, name@, 0) == proxy_for(self@, name@, i as int),
                resolved_site(self@, host@) is None,
            decreases self.proxies@.len() - i,
        {
            assert(self@.proxies[i as int] == self.proxies@[i as int]@);
            if str_eq(self.proxies[i].domain.as_str(), name.as_str()) {
                return Some(Route::Proxy(i));
            }
            i = i + 1;
        }
        None
    }
}

} // verus!
