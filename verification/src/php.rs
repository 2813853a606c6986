//! A request for a site with a FastCGI backend: files first, then a script, then the
//! site's root `index.php`.
//!
//! Serving files and asking the file system is done elsewhere. A request is a series
//! of questions to it, and of decisions on the answers.

use vstd::prelude::*;

use crate::cgi_params::{build_params, opt_view, params, AutoLoginParams, SocketAddr};
use crate::error::ProxyError;
use crate::fcgi::{is_prelude, request_prelude};
use crate::headers::header_groups;
use crate::redirect::directory_location;
use crate::replies::{
    is_moved, is_reply, method_fields, method_not_allowed_response, trailing_slash_redirect,
    Response,
};
use crate::script_file::{
    answer_views, law_rule_search_finds_the_target, law_search_finds_the_resolution,
    lemma_rule_truthful_push, lemma_truthful_push, reply, resolution, resolve_rule_target,
    resolve_script, rule_search, rule_target_is_there, rule_truthful, script_search, truthful,
    Answer, Disk, Probe, ResolutionView, RuleSearch, RuleSearchView, ScriptResolution, Search,
    SearchView,
};
use crate::sites::RouteRule;
use crate::text::str_eq;
use crate::try_files::{is_php_source, path_of_request, php_source, request_path};

verus! {

/// What a request for a PHP site is decided by.
#[derive(Debug)]
pub struct PhpRequest {
    /// The method.
    pub method: String,
    /// The path and query, empty where the request has none.
    pub target: String,
    /// The directory that the site serves.
    pub served_root: String,
    /// The root that nothing may lead out of.
    pub allowed_root: String,
    /// The routing rule that applies where no file answers.
    pub route: Option<RouteRule>,
    /// Whether a symbolic link may not lead out of the root.
    pub symlink_protection: bool,
}

/// What came of an attempt to serve a file. `R` is a response with a file in it.
#[derive(Debug)]
pub enum StaticOutcome<R> {
    /// The file is served.
    Served(R),
    /// The file lies outside of the site's tree.
    SymlinkEscape {
        /// The path that was asked for.
        requested_path: String,
        /// Where it leads.
        resolved: String,
        /// The root that it may not lead out of.
        allowed_root: String,
    },
    /// There is no such file.
    NotFound,
}

/// How far a request has come.
#[derive(Debug)]
pub enum PhpState {
    /// The file that it names is tried.
    File,
    /// The index of the directory that it names is tried.
    Index,
    /// Whether the site executes scripts directly is asked.
    Direct,
    /// The script is searched for, with these answers.
    Script(Vec<Answer>),
    /// The index of the whole site is tried.
    SiteIndex,
    /// The PHP target of the routing rule is searched for, with these answers.
    RuleScript(Vec<Answer>),
    /// The static target of the routing rule is tried.
    RuleFile,
    /// The request is decided.
    Closed,
}

/// What has happened.
#[derive(Debug)]
pub enum PhpEvent<R> {
    /// An attempt to serve a file has come to this.
    Static(StaticOutcome<R>),
    /// Whether the site executes scripts directly.
    Direct(bool),
    /// The file system has answered.
    Answered(Answer),
}

/// What is to be done.
#[derive(Debug)]
pub enum PhpAction<R> {
    /// Try to serve the file that the path names.
    TryServe,
    /// Try to serve the index of the directory `path`.
    TryServeIndex(String),
    /// Ask whether the site executes scripts directly.
    AskDirect,
    /// Ask the file system.
    Ask(Probe),
    /// Try to serve this target of a routing rule.
    ServeTarget(String),
    /// Answer with this response.
    Respond(R),
    /// Refuse a file outside of the site's tree.
    Refuse {
        /// The path that was asked for.
        requested_path: String,
        /// Where it leads.
        resolved: String,
        /// The root that it may not lead out of.
        allowed_root: String,
    },
    /// Answer with this reply.
    Reply(Result<Response<Vec<u8>>, ProxyError>),
    /// Forward to the FastCGI backend.
    Forward {
        /// The script, where it is not the root `index.php`.
        script_rel: Option<String>,
        /// The `PATH_INFO`, where it is not the request path.
        path_info: Option<String>,
        /// Whether the routing rule has a target that cannot be used.
        unusable_rule: bool,
    },
    /// Nothing: the request is decided.
    Idle,
}

/// Whether a method asks for a file.
pub open spec fn reads(method: Seq<char>) -> bool {
    method == "GET"@ || method == "HEAD"@
}

/// Whether a method asks for a file.
fn is_read(method: &str) -> (r: bool)
    ensures
        r == reads(method@),
{
    str_eq(method, "GET") || str_eq(method, "HEAD")
}

/// Forwarding to `script`.
pub open spec fn is_forward<R>(
    action: PhpAction<R>,
    script: Option<Seq<char>>,
    info: Option<Seq<char>>,
    unusable: bool,
) -> bool {
    match action {
        PhpAction::Forward { script_rel, path_info, unusable_rule } => {
            &&& (script_rel is Some <==> script is Some)
            &&& (script is Some ==> script_rel->0@ == script->0)
            &&& (path_info is Some <==> info is Some)
            &&& (info is Some ==> path_info->0@ == info->0)
            &&& unusable_rule == unusable
        },
        _ => false,
    }
}

/// What is done once no file, script or directory has answered: the routing rule
/// applies, and without one the site's own index page.
pub open spec fn route_begun<R>(
    request: PhpRequest,
    next: PhpState,
    action: PhpAction<R>,
) -> bool {
    match request.route {
        None => {
            &&& next is SiteIndex
            &&& action is TryServeIndex
            &&& action->TryServeIndex_0@ == "/"@
        },
        Some(rule) => if php_source(rule.target@) {
            let search = rule_search(
                request.served_root@,
                request.allowed_root@,
                rule.target@,
                request.symlink_protection,
                Seq::empty(),
            );
            &&& next is RuleScript
            &&& next->RuleScript_0@.len() == 0
            &&& action is Ask
            &&& search == RuleSearchView::Ask(action->Ask_0@)
        } else if !reads(request.method@) {
            &&& next is Closed
            &&& action is Reply
            &&& action->Reply_0 is Ok
            &&& is_reply(
                action->Reply_0->Ok_0,
                405,
                method_fields(),
                "405 Method Not Allowed\n\nThis path is served by a static routing rule target, which only answers GET and HEAD.\n"@,
            )
        } else {
            &&& next is RuleFile
            &&& action is ServeTarget
            &&& action->ServeTarget_0@ == rule.target@
        },
    }
}

/// What is done with what the request path resolved to.
pub open spec fn resolved_step<R>(
    request: PhpRequest,
    found: ResolutionView,
    next: PhpState,
    action: PhpAction<R>,
) -> bool {
    match found {
        ResolutionView::Script(rel) => next is Closed && is_forward(action, Some(rel), None, false),
        ResolutionView::ScriptWithPathInfo(rel, info) => next is Closed && is_forward(
            action,
            Some(rel),
            Some(info),
            false,
        ),
        ResolutionView::DirectoryRedirect => if reads(request.method@) {
            &&& next is Closed
            &&& action is Reply
            &&& is_moved(action->Reply_0, directory_location(request.target@), true)
        } else {
            route_begun(request, next, action)
        },
        ResolutionView::Fallback => route_begun(request, next, action),
    }
}

/// What is done with a file that was served or refused.
pub open spec fn static_step<R>(outcome: StaticOutcome<R>, next: PhpState, action: PhpAction<R>) -> bool {
    match outcome {
        StaticOutcome::Served(r) => next is Closed && action == PhpAction::Respond(r),
        StaticOutcome::SymlinkEscape { requested_path, resolved, allowed_root } => next is Closed
            && action == (PhpAction::Refuse::<R> { requested_path, resolved, allowed_root }),
        StaticOutcome::NotFound => false,
    }
}

/// The step that a request takes on an event: to `next`, with `action`.
pub open spec fn php_step<R>(
    request: PhpRequest,
    from: PhpState,
    event: PhpEvent<R>,
    next: PhpState,
    action: PhpAction<R>,
) -> bool {
    let path = request_path(request.target@);
    match (from, event) {
        (PhpState::File, PhpEvent::Static(outcome)) => if outcome is NotFound {
            &&& next is Index
            &&& action is TryServeIndex
            &&& action->TryServeIndex_0@ == path
        } else {
            static_step(outcome, next, action)
        },
        (PhpState::Index, PhpEvent::Static(outcome)) => if outcome is NotFound {
            next is Direct && action is AskDirect
        } else {
            static_step(outcome, next, action)
        },
        (PhpState::Direct, PhpEvent::Direct(direct)) => if direct {
            let search = script_search(
                path,
                request.served_root@,
                request.allowed_root@,
                request.symlink_protection,
                Seq::empty(),
            );
            &&& next is Script
            &&& next->Script_0@.len() == 0
            &&& action is Ask
            &&& search == SearchView::Ask(action->Ask_0@)
        } else {
            route_begun(request, next, action)
        },
        (PhpState::Script(answers), PhpEvent::Answered(answer)) => match script_search(
            path,
            request.served_root@,
            request.allowed_root@,
            request.symlink_protection,
            answer_views(answers@.push(answer)),
        ) {
            SearchView::Ask(probe) => {
                &&& next is Script
                &&& next->Script_0@ == answers@.push(answer)
                &&& action is Ask
                &&& action->Ask_0@ == probe
            },
            SearchView::Done(found) => resolved_step(request, found, next, action),
        },
        (PhpState::SiteIndex, PhpEvent::Static(outcome)) => if outcome is NotFound {
            next is Closed && is_forward(action, None, None, false)
        } else {
            static_step(outcome, next, action)
        },
        (PhpState::RuleScript(answers), PhpEvent::Answered(answer)) => match request.route {
            Some(rule) => match rule_search(
                request.served_root@,
                request.allowed_root@,
                rule.target@,
                request.symlink_protection,
                answer_views(answers@.push(answer)),
            ) {
                RuleSearchView::Ask(probe) => {
                    &&& next is RuleScript
                    &&& next->RuleScript_0@ == answers@.push(answer)
                    &&& action is Ask
                    &&& action->Ask_0@ == probe
                },
                RuleSearchView::Done(found) => if found {
                    next is Closed && is_forward(action, Some(rule.target@), None, false)
                } else {
                    next is Closed && is_forward(action, None, None, true)
                },
            },
            None => next is Closed && action is Idle,
        },
        (PhpState::RuleFile, PhpEvent::Static(outcome)) => if outcome is NotFound {
            next is Closed && is_forward(action, None, None, true)
        } else {
            static_step(outcome, next, action)
        },
        _ => next is Closed && action is Idle,
    }
}

/// Turn the outcome of an attempt into what ends the request, or nothing where there is
/// no such file.
fn resolve_static_outcome<R>(outcome: StaticOutcome<R>) -> (r: Option<PhpAction<R>>)
    ensures
        r is None <==> outcome is NotFound,
        r is Some ==> static_step(outcome, PhpState::Closed, r->0),
{
    match outcome {
        StaticOutcome::Served(r) => Some(PhpAction::Respond(r)),
        StaticOutcome::SymlinkEscape { requested_path, resolved, allowed_root } => Some(
            PhpAction::Refuse { requested_path, resolved, allowed_root },
        ),
        StaticOutcome::NotFound => None,
    }
}

/// Begin with the routing rule, or without one with the site's own index page.
fn apply_route<R>(request: &PhpRequest) -> (r: (PhpState, PhpAction<R>))
    ensures
        route_begun(*request, r.0, r.1),
{
    match &request.route {
        None => (PhpState::SiteIndex, PhpAction::TryServeIndex("/".to_owned())),
        Some(rule) => {
            if is_php_source(rule.target.as_str()) {
                let answers: Vec<Answer> = Vec::new();
                assert(answer_views(answers@) =~= Seq::empty());
                match resolve_rule_target(
                    request.served_root.as_str(),
                    request.allowed_root.as_str(),
                    rule.target.as_str(),
                    request.symlink_protection,
                    &answers,
                ) {
                    RuleSearch::Ask(probe) => (
                        PhpState::RuleScript(answers),
                        PhpAction::Ask(probe),
                    ),
                    RuleSearch::Done(_) => (PhpState::Closed, PhpAction::Idle),
                }
            } else if !is_read(request.method.as_str()) {
                (PhpState::Closed, PhpAction::Reply(Ok(method_not_allowed_response())))
            } else {
                (PhpState::RuleFile, PhpAction::ServeTarget(rule.target.clone()))
            }
        },
    }
}

/// Go on from what the request path resolved to.
fn apply_resolution<R>(request: &PhpRequest, found: ScriptResolution) -> (r: (
    PhpState,
    PhpAction<R>,
))
    ensures
        resolved_step(*request, found@, r.0, r.1),
{
    match found {
        ScriptResolution::Script(rel) => (
            PhpState::Closed,
            PhpAction::Forward { script_rel: Some(rel), path_info: None, unusable_rule: false },
        ),
        ScriptResolution::ScriptWithPathInfo(rel, info) => (
            PhpState::Closed,
            PhpAction::Forward {
                script_rel: Some(rel),
                path_info: Some(info),
                unusable_rule: false,
            },
        ),
        ScriptResolution::DirectoryRedirect => {
            if is_read(request.method.as_str()) {
                (
                    PhpState::Closed,
                    PhpAction::Reply(trailing_slash_redirect(request.target.as_str())),
                )
            } else {
                apply_route(request)
            }
        },
        ScriptResolution::Fallback => apply_route(request),
    }
}

/// Go on with the search for the script.
fn search_script<R>(request: &PhpRequest, answers: Vec<Answer>) -> (r: (PhpState, PhpAction<R>))
    ensures
        match script_search(
            request_path(request.target@),
            request.served_root@,
            request.allowed_root@,
            request.symlink_protection,
            answer_views(answers@),
        ) {
            SearchView::Ask(probe) => {
                &&& r.0 is Script
                &&& r.0->Script_0@ == answers@
                &&& r.1 is Ask
                &&& r.1->Ask_0@ == probe
            },
            SearchView::Done(found) => resolved_step(*request, found, r.0, r.1),
        },
{
    let path: String = path_of_request(request.target.as_str());
    match resolve_script(
        path.as_str(),
        request.served_root.as_str(),
        request.allowed_root.as_str(),
        request.symlink_protection,
        &answers,
    ) {
        Search::Ask(probe) => (PhpState::Script(answers), PhpAction::Ask(probe)),
        Search::Done(found) => apply_resolution(request, found),
    }
}

/// Begin: the file that the path names comes first.
pub fn serve_php_fpm<R>() -> (r: (PhpState, PhpAction<R>))
    ensures
        r.0 is File,
        r.1 is TryServe,
{
    (PhpState::File, PhpAction::TryServe)
}

impl PhpState {
    /// Take one step.
    pub fn step<R>(self, request: &PhpRequest, event: PhpEvent<R>) -> (r: (PhpState, PhpAction<R>))
        ensures
            php_step(*request, self, event, r.0, r.1),
    {
        match (self, event) {
            (PhpState::File, PhpEvent::Static(outcome)) => match resolve_static_outcome(outcome) {
                Some(action) => (PhpState::Closed, action),
                None => {
                    let path: String = path_of_request(request.target.as_str());
                    (PhpState::Index, PhpAction::TryServeIndex(path))
                },
            },
            (PhpState::Index, PhpEvent::Static(outcome)) => match resolve_static_outcome(outcome) {
                Some(action) => (PhpState::Closed, action),
                None => (PhpState::Direct, PhpAction::AskDirect),
            },
            (PhpState::Direct, PhpEvent::Direct(direct)) => {
                if direct {
                    let answers: Vec<Answer> = Vec::new();
                    assert(answer_views(answers@) =~= Seq::empty());
                    search_script(request, answers)
                } else {
                    apply_route(request)
                }
            },
            (PhpState::Script(answers), PhpEvent::Answered(answer)) => {
                let mut answers: Vec<Answer> = answers;
                answers.push(answer);
                search_script(request, answers)
            },
            (PhpState::SiteIndex, PhpEvent::Static(outcome)) => match resolve_static_outcome(
                outcome,
            ) {
                Some(action) => (PhpState::Closed, action),
                None => (
                    PhpState::Closed,
                    PhpAction::Forward { script_rel: None, path_info: None, unusable_rule: false },
                ),
            },
            (PhpState::RuleScript(answers), PhpEvent::Answered(answer)) => {
                let mut answers: Vec<Answer> = answers;
                answers.push(answer);
                match &request.route {
                    Some(rule) => match resolve_rule_target(
                        request.served_root.as_str(),
                        request.allowed_root.as_str(),
                        rule.target.as_str(),
                        request.symlink_protection,
                        &answers,
                    ) {
                        RuleSearch::Ask(probe) => (
                            PhpState::RuleScript(answers),
                            PhpAction::Ask(probe),
                        ),
                        RuleSearch::Done(true) => (
                            PhpState::Closed,
                            PhpAction::Forward {
                                script_rel: Some(rule.target.clone()),
                                path_info: None,
                                unusable_rule: false,
                            },
                        ),
                        RuleSearch::Done(false) => (
                            PhpState::Closed,
                            PhpAction::Forward {
                                script_rel: None,
                                path_info: None,
                                unusable_rule: true,
                            },
                        ),
                    },
                    None => (PhpState::Closed, PhpAction::Idle),
                }
            },
            (PhpState::RuleFile, PhpEvent::Static(outcome)) => match resolve_static_outcome(
                outcome,
            ) {
                Some(action) => (PhpState::Closed, action),
                None => (
                    PhpState::Closed,
                    PhpAction::Forward { script_rel: None, path_info: None, unusable_rule: true },
                ),
            },
            _ => (PhpState::Closed, PhpAction::Idle),
        }
    }
}

/// Whether `r` is what a forwarded request opens with.
pub open spec fn is_opening(
    r: Result<Vec<u8>, ProxyError>,
    method: Seq<char>,
    target: Seq<char>,
    groups: Seq<(Seq<char>, Seq<Seq<u8>>)>,
    served_root: Seq<char>,
    script_rel: Option<Seq<char>>,
    path_info: Option<Seq<char>>,
    https: bool,
    peer: SocketAddr,
    server: SocketAddr,
    auto_login: Option<AutoLoginParams>,
) -> bool {
    is_prelude(
        r,
        params(
            method,
            target,
            groups,
            served_root,
            script_rel,
            path_info,
            https,
            peer,
            server,
            auto_login,
        ),
    )
}

/// The bytes that a forwarded request opens with. `script_rel` and `path_info` are what
/// the decision to forward came with, `target` is what is left of the request's own
/// once a login token is spent.
pub fn forward_prelude(
    method: &str,
    target: &str,
    headers: &http::HeaderMap<http::HeaderValue>,
    served_root: &str,
    script_rel: Option<&str>,
    path_info: Option<&str>,
    https: bool,
    peer_addr: &SocketAddr,
    server_addr: &SocketAddr,
    auto_login: Option<AutoLoginParams<'_>>,
) -> (r: Result<Vec<u8>, ProxyError>)
    ensures
        is_opening(
            r,
            method@,
            target@,
            header_groups(*headers),
            served_root@,
            opt_view(script_rel),
            opt_view(path_info),
            https,
            *peer_addr,
            *server_addr,
            auto_login,
        ),
{
    let pairs: Vec<(Vec<u8>, Vec<u8>)> = build_params(
        method,
        target,
        headers,
        served_root,
        script_rel,
        path_info,
        https,
        peer_addr,
        server_addr,
        auto_login,
    );
    request_prelude(&pairs)
}

/// Everything that a request meets: what the attempts to serve a file come to, whether
/// the site executes scripts directly, and the file system.
pub struct World<R> {
    /// What serving the named file comes to.
    pub file: StaticOutcome<R>,
    /// What serving the index of the named directory comes to.
    pub index: StaticOutcome<R>,
    /// Whether the site executes scripts directly.
    pub direct: bool,
    /// The file system.
    pub disk: Disk,
    /// What serving the index of the whole site comes to.
    pub site_index: StaticOutcome<R>,
    /// What serving the static target of the routing rule comes to.
    pub rule_file: StaticOutcome<R>,
}

/// What a request comes to.
pub enum Outcome<R> {
    /// A file is served, or refused.
    Static(StaticOutcome<R>),
    /// It is redirected to its trailing-slash form.
    Redirect,
    /// Its method is not allowed.
    NotAllowed,
    /// It is forwarded, with this script and `PATH_INFO`, and with an unusable rule or
    /// without.
    Forward(Option<Seq<char>>, Option<Seq<char>>, bool),
}

/// What a request comes to where no file, script or directory answers it.
pub open spec fn route_outcome<R>(request: PhpRequest, world: World<R>) -> Outcome<R> {
    match request.route {
        None => if world.site_index is NotFound {
            Outcome::Forward(None, None, false)
        } else {
            Outcome::Static(world.site_index)
        },
        Some(rule) => if php_source(rule.target@) {
            if rule_target_is_there(
                world.disk,
                request.served_root@,
                request.allowed_root@,
                rule.target@,
                request.symlink_protection,
            ) {
                Outcome::Forward(Some(rule.target@), None, false)
            } else {
                Outcome::Forward(None, None, true)
            }
        } else if !reads(request.method@) {
            Outcome::NotAllowed
        } else if world.rule_file is NotFound {
            Outcome::Forward(None, None, true)
        } else {
            Outcome::Static(world.rule_file)
        },
    }
}

/// What a request comes to: a file wins over everything, then the index of a directory,
/// then, where scripts are executed directly, a script or a missing slash, and at last
/// the routing rule.
pub open spec fn php_outcome<R>(request: PhpRequest, world: World<R>) -> Outcome<R> {
    if !(world.file is NotFound) {
        Outcome::Static(world.file)
    } else if !(world.index is NotFound) {
        Outcome::Static(world.index)
    } else if !world.direct {
        route_outcome(request, world)
    } else {
        match resolution(
            world.disk,
            request_path(request.target@),
            request.served_root@,
            request.allowed_root@,
            request.symlink_protection,
        ) {
            ResolutionView::Script(rel) => Outcome::Forward(Some(rel), None, false),
            ResolutionView::ScriptWithPathInfo(rel, info) => Outcome::Forward(
                Some(rel),
                Some(info),
                false,
            ),
            ResolutionView::DirectoryRedirect => if reads(request.method@) {
                Outcome::Redirect
            } else {
                route_outcome(request, world)
            },
            ResolutionView::Fallback => route_outcome(request, world),
        }
    }
}

/// Whether an action decides a request.
pub open spec fn decides<R>(action: PhpAction<R>) -> bool {
    action is Respond || action is Refuse || action is Reply || action is Forward
}

/// Whether `action` is what a request comes to.
pub open spec fn is_outcome<R>(
    action: PhpAction<R>,
    request: PhpRequest,
    outcome: Outcome<R>,
) -> bool {
    match outcome {
        Outcome::Static(o) => static_step(o, PhpState::Closed, action),
        Outcome::Redirect => action is Reply && is_moved(
            action->Reply_0,
            directory_location(request.target@),
            true,
        ),
        Outcome::NotAllowed => action is Reply && action->Reply_0 is Ok && is_reply(
            action->Reply_0->Ok_0,
            405,
            method_fields(),
            "405 Method Not Allowed\n\nThis path is served by a static routing rule target, which only answers GET and HEAD.\n"@,
        ),
        Outcome::Forward(script, info, unusable) => is_forward(action, script, info, unusable),
    }
}

/// Whether `event` is what `action`, done in `state`, comes to in `world`.
pub open spec fn happens<R>(
    world: World<R>,
    state: PhpState,
    action: PhpAction<R>,
    event: PhpEvent<R>,
) -> bool {
    match state {
        PhpState::File => event == PhpEvent::Static(world.file),
        PhpState::Index => event == PhpEvent::Static(world.index),
        PhpState::Direct => event == PhpEvent::<R>::Direct(world.direct),
        PhpState::SiteIndex => event == PhpEvent::Static(world.site_index),
        PhpState::RuleFile => event == PhpEvent::Static(world.rule_file),
        PhpState::Script(_) => action is Ask && event is Answered && event->Answered_0@ == reply(
            world.disk,
            action->Ask_0@,
        ),
        PhpState::RuleScript(_) => action is Ask && event is Answered && event->Answered_0@
            == reply(world.disk, action->Ask_0@),
        PhpState::Closed => true,
    }
}

/// A request from its beginning on: `states[i]` is the state in which `actions[i]` is
/// done, and `events[i]` is what that comes to in `world`.
pub open spec fn is_php_run<R>(
    request: PhpRequest,
    world: World<R>,
    states: Seq<PhpState>,
    actions: Seq<PhpAction<R>>,
    events: Seq<PhpEvent<R>>,
) -> bool {
    &&& states.len() == events.len() + 1
    &&& actions.len() == events.len() + 1
    &&& states[0] is File
    &&& actions[0] is TryServe
    &&& forall|i: int|
        0 <= i < events.len() ==> happens(world, #[trigger] states[i], actions[i], events[i])
            && php_step(request, states[i], events[i], states[i + 1], actions[i + 1])
}

/// What holds in the course of a request.
spec fn php_invariant<R>(
    request: PhpRequest,
    world: World<R>,
    state: PhpState,
    action: PhpAction<R>,
) -> bool {
    let path = request_path(request.target@);
    match state {
        PhpState::File => action is TryServe,
        PhpState::Index => world.file is NotFound && !decides(action),
        PhpState::Direct => world.file is NotFound && world.index is NotFound && !decides(action),
        PhpState::Script(answers) => {
            &&& world.file is NotFound
            &&& world.index is NotFound
            &&& world.direct
            &&& truthful(
                world.disk,
                path,
                request.served_root@,
                request.allowed_root@,
                request.symlink_protection,
                answer_views(answers@),
            )
            &&& action is Ask
            &&& script_search(
                path,
                request.served_root@,
                request.allowed_root@,
                request.symlink_protection,
                answer_views(answers@),
            ) == SearchView::Ask(action->Ask_0@)
        },
        PhpState::SiteIndex => {
            &&& php_outcome(request, world) == route_outcome(request, world)
            &&& request.route is None
            &&& !decides(action)
        },
        PhpState::RuleScript(answers) => {
            &&& php_outcome(request, world) == route_outcome(request, world)
            &&& request.route is Some
            &&& php_source(request.route->0.target@)
            &&& rule_truthful(
                world.disk,
                request.served_root@,
                request.allowed_root@,
                request.route->0.target@,
                request.symlink_protection,
                answer_views(answers@),
            )
            &&& action is Ask
            &&& rule_search(
                request.served_root@,
                request.allowed_root@,
                request.route->0.target@,
                request.symlink_protection,
                answer_views(answers@),
            ) == RuleSearchView::Ask(action->Ask_0@)
        },
        PhpState::RuleFile => {
            &&& php_outcome(request, world) == route_outcome(request, world)
            &&& request.route is Some
            &&& !php_source(request.route->0.target@)
            &&& reads(request.method@)
            &&& !decides(action)
        },
        PhpState::Closed => decides(action) ==> is_outcome(
            action,
            request,
            php_outcome(request, world),
        ),
    }
}

/// Beginning with the routing rule keeps the invariant.
proof fn lemma_route_begun<R>(
    request: PhpRequest,
    world: World<R>,
    next: PhpState,
    action: PhpAction<R>,
)
    requires
        php_outcome(request, world) == route_outcome(request, world),
        route_begun(request, next, action),
    ensures
        php_invariant(request, world, next, action),
        !(next is Closed) || decides(action),
{
    if let PhpState::RuleScript(answers) = next {
        assert(answer_views(answers@) =~= Seq::empty());
    }
}

/// Every step keeps the invariant.
proof fn lemma_php_step<R>(
    request: PhpRequest,
    world: World<R>,
    from: PhpState,
    before: PhpAction<R>,
    event: PhpEvent<R>,
    next: PhpState,
    action: PhpAction<R>,
)
    requires
        php_invariant(request, world, from, before),
        happens(world, from, before, event),
        php_step(request, from, event, next, action),
    ensures
        php_invariant(request, world, next, action),
        next is Closed && !(from is Closed) ==> decides(action),
{
    let path = request_path(request.target@);
    match from {
        PhpState::Direct => {
            if world.direct {
                if let PhpState::Script(answers) = next {
                    assert(answer_views(answers@) =~= Seq::empty());
                }
            } else {
                lemma_route_begun(request, world, next, action);
            }
        },
        PhpState::Script(answers) => {
            let seen = answer_views(answers@);
            let answer = event->Answered_0;
            lemma_truthful_push(
                world.disk,
                path,
                request.served_root@,
                request.allowed_root@,
                request.symlink_protection,
                seen,
                answer@,
            );
            assert(answer_views(answers@.push(answer)) =~= seen.push(answer@));
            law_search_finds_the_resolution(
                world.disk,
                path,
                request.served_root@,
                request.allowed_root@,
                request.symlink_protection,
                seen.push(answer@),
            );
            if let SearchView::Done(found) = script_search(
                path,
                request.served_root@,
                request.allowed_root@,
                request.symlink_protection,
                seen.push(answer@),
            ) {
                if found is Fallback || (found is DirectoryRedirect && !reads(request.method@)) {
                    lemma_route_begun(request, world, next, action);
                }
            }
        },
        PhpState::RuleScript(answers) => {
            let seen = answer_views(answers@);
            let answer = event->Answered_0;
            let target = request.route->0.target@;
            lemma_rule_truthful_push(
                world.disk,
                request.served_root@,
                request.allowed_root@,
                target,
                request.symlink_protection,
                seen,
                answer@,
            );
            assert(answer_views(answers@.push(answer)) =~= seen.push(answer@));
            law_rule_search_finds_the_target(
                world.disk,
                request.served_root@,
                request.allowed_root@,
                target,
                request.symlink_protection,
                seen.push(answer@),
            );
        },
        _ => {},
    }
}

/// Whatever a request meets, it is decided as [`php_outcome`] says.
pub proof fn law_requests_come_to_their_outcome<R>(
    request: PhpRequest,
    world: World<R>,
    states: Seq<PhpState>,
    actions: Seq<PhpAction<R>>,
    events: Seq<PhpEvent<R>>,
    k: int,
)
    requires
        is_php_run(request, world, states, actions, events),
        0 <= k < actions.len(),
        decides(actions[k]),
    ensures
        is_outcome(actions[k], request, php_outcome(request, world)),
{
    lemma_php_run(request, world, states, actions, events, k);
}

/// The invariant holds throughout.
proof fn lemma_php_run<R>(
    request: PhpRequest,
    world: World<R>,
    states: Seq<PhpState>,
    actions: Seq<PhpAction<R>>,
    events: Seq<PhpEvent<R>>,
    k: int,
)
    requires
        is_php_run(request, world, states, actions, events),
        0 <= k < actions.len(),
    ensures
        php_invariant(request, world, states[k], actions[k]),
        states[k] is Closed && k > 0 && !(states[k - 1] is Closed) ==> decides(actions[k]),
    decreases k,
{
    if k > 0 {
        lemma_php_run(request, world, states, actions, events, k - 1);
        assert(happens(world, states[k - 1], actions[k - 1], events[k - 1]));
        lemma_php_step(
            request,
            world,
            states[k - 1],
            actions[k - 1],
            events[k - 1],
            states[k],
            actions[k],
        );
    }
}

/// How many events a request takes at most until it is decided.
spec fn events_left(state: PhpState) -> int {
    match state {
        PhpState::File => 13,
        PhpState::Index => 12,
        PhpState::Direct => 11,
        PhpState::Script(answers) => 10 - answers@.len(),
        PhpState::RuleScript(answers) => 3 - answers@.len(),
        PhpState::SiteIndex => 1,
        PhpState::RuleFile => 1,
        PhpState::Closed => 0,
    }
}

/// A request that is not decided has an event to come, and a search leaves room for
/// that of a rule's target.
proof fn lemma_events_left<R>(
    request: PhpRequest,
    world: World<R>,
    state: PhpState,
    action: PhpAction<R>,
)
    requires
        php_invariant(request, world, state, action),
    ensures
        !(state is Closed) ==> events_left(state) > 0,
        state is Script ==> events_left(state) > 3,
{
    match state {
        PhpState::Script(answers) => {
            law_search_finds_the_resolution(
                world.disk,
                request_path(request.target@),
                request.served_root@,
                request.allowed_root@,
                request.symlink_protection,
                answer_views(answers@),
            );
        },
        PhpState::RuleScript(answers) => {
            law_rule_search_finds_the_target(
                world.disk,
                request.served_root@,
                request.allowed_root@,
                request.route->0.target@,
                request.symlink_protection,
                answer_views(answers@),
            );
        },
        _ => {},
    }
}

/// After `k` events, a request is decided or has that many fewer to come.
proof fn lemma_undecided<R>(
    request: PhpRequest,
    world: World<R>,
    states: Seq<PhpState>,
    actions: Seq<PhpAction<R>>,
    events: Seq<PhpEvent<R>>,
    k: int,
)
    requires
        is_php_run(request, world, states, actions, events),
        0 <= k < actions.len(),
    ensures
        states[k] is Closed ==> exists|j: int| 0 <= j <= k && decides(#[trigger] actions[j]),
        !(states[k] is Closed) ==> 0 < events_left(states[k]) <= 13 - k,
    decreases k,
{
    lemma_php_run(request, world, states, actions, events, k);
    lemma_events_left(request, world, states[k], actions[k]);
    if k > 0 {
        lemma_undecided(request, world, states, actions, events, k - 1);
        if states[k] is Closed {
            if states[k - 1] is Closed {
                let j = choose|j: int| 0 <= j <= k - 1 && decides(#[trigger] actions[j]);
                assert(decides(actions[j]));
            } else {
                assert(decides(actions[k]));
            }
        } else {
            lemma_php_run(request, world, states, actions, events, k - 1);
            lemma_events_left(request, world, states[k - 1], actions[k - 1]);
            assert(happens(world, states[k - 1], actions[k - 1], events[k - 1]));
            lemma_step_advances(
                request,
                world,
                states[k - 1],
                actions[k - 1],
                events[k - 1],
                states[k],
                actions[k],
            );
        }
    }
}

/// Every step leaves fewer events to come.
proof fn lemma_step_advances<R>(
    request: PhpRequest,
    world: World<R>,
    from: PhpState,
    before: PhpAction<R>,
    event: PhpEvent<R>,
    next: PhpState,
    action: PhpAction<R>,
)
    requires
        happens(world, from, before, event),
        php_step(request, from, event, next, action),
        from is Script ==> events_left(from) > 3,
        events_left(from) > 0,
    ensures
        !(next is Closed) ==> events_left(next) < events_left(from),
{
}

/// Every request is decided, as [`php_outcome`] says, within thirteen events: one file,
/// one index and one question to the site, then at most seven to the file system for
/// the script and three for the target of a rule.
pub proof fn law_requests_are_decided<R>(
    request: PhpRequest,
    world: World<R>,
    states: Seq<PhpState>,
    actions: Seq<PhpAction<R>>,
    events: Seq<PhpEvent<R>>,
)
    requires
        is_php_run(request, world, states, actions, events),
        events.len() >= 13,
    ensures
        exists|k: int|
            0 <= k <= 13 && decides(#[trigger] actions[k]) && is_outcome(
                actions[k],
                request,
                php_outcome(request, world),
            ),
{
    lemma_undecided(request, world, states, actions, events, 13);
    let k = choose|k: int| 0 <= k <= 13 && decides(#[trigger] actions[k]);
    law_requests_come_to_their_outcome(request, world, states, actions, events, k);
}

/// A request is decided at most once. So a request that is answered with a file, a
/// redirect or a refusal is not forwarded, and costs no login token.
pub proof fn law_requests_are_decided_once<R>(
    request: PhpRequest,
    world: World<R>,
    states: Seq<PhpState>,
    actions: Seq<PhpAction<R>>,
    events: Seq<PhpEvent<R>>,
    i: int,
    k: int,
)
    requires
        is_php_run(request, world, states, actions, events),
        0 <= i < k < actions.len(),
        decides(actions[i]),
    ensures
        actions[k] is Idle,
        states[k] is Closed,
    decreases k,
{
    assert(happens(world, states[k - 1], actions[k - 1], events[k - 1]));
    if i + 1 < k {
        law_requests_are_decided_once(request, world, states, actions, events, i, k - 1);
    } else {
        lemma_php_run(request, world, states, actions, events, i);
    }
}

/// A site that does not execute scripts directly routes its paths itself: it is never
/// redirected to a trailing slash, and no script but that of a rule is executed.
pub proof fn law_front_controllers_route_themselves<R>(request: PhpRequest, world: World<R>)
    requires
        !world.direct,
    ensures
        !(php_outcome(request, world) is Redirect),
        match php_outcome(request, world) {
            Outcome::Forward(Some(script), info, _) => request.route is Some && script
                == request.route->0.target@ && info is None,
            _ => true,
        },
{
}

/// Only a request that asks for a file is redirected to a trailing slash.
pub proof fn law_only_reads_are_redirected<R>(request: PhpRequest, world: World<R>)
    requires
        !reads(request.method@),
    ensures
        !(php_outcome(request, world) is Redirect),
{
}

/// A file wins over every rule, and a rule whose target cannot be used changes nothing
/// but the log: the root `index.php` answers.
pub proof fn law_rules_yield_to_files<R>(request: PhpRequest, world: World<R>)
    ensures
        world.file is Served ==> php_outcome(request, world) == Outcome::Static(world.file),
        world.index is Served && world.file is NotFound ==> php_outcome(request, world)
            == Outcome::Static(world.index),
        match php_outcome(request, world) {
            Outcome::Forward(script, info, true) => script is None && info is None,
            _ => true,
        },
{
}

} // verus!
