//! Laws of [`script_file`](crate::script_file) and [`php`](crate::php).

use vstd::prelude::*;
use vstd::utf8::encode_utf8;

use crate::headers::{header_groups, valid_value, values_of};
use crate::php::{
    is_outcome, php_outcome, php_step, reads, route_outcome, Outcome, PhpAction, PhpEvent,
    PhpRequest, PhpState, StaticOutcome, World,
};
use crate::redirect::directory_location;
use crate::script_file::{
    components, containment, named, resolution, rule_target_is_there, within, ContainmentView, Disk,
    ResolutionView,
};
use crate::text::{join, joined, lemma_split_join, split};
use crate::try_files::{directory_path, php_source, php_split, request_path, static_path};

verus! {

/// Whether a path below the served root leads to a file, or a directory, and within the
/// tree while that is asked for.
pub open spec fn there(
    disk: Disk,
    served_root: Seq<char>,
    tree: Seq<char>,
    rel: Seq<char>,
    directory: bool,
    protection: bool,
) -> bool {
    match (disk.located)(joined(served_root, rel), tree) {
        None => false,
        Some(ContainmentView::Within(path)) => if directory {
            (disk.directory)(path)
        } else {
            (disk.file)(path)
        },
        Some(ContainmentView::Escaped(path)) => !protection && if directory {
            (disk.directory)(path)
        } else {
            (disk.file)(path)
        },
    }
}

/// What a request path resolves to: the script of that name, where it is there; else the
/// directory of that name, which lacks its slash; for a directory its `index.php`; else the
/// script within the path, with the rest as its extra path; and else nothing. Only what is
/// PHP source is a script, and nothing is found in a tree that is not there.
pub proof fn law_requests_resolve(
    disk: Disk,
    path: Seq<char>,
    served_root: Seq<char>,
    allowed_root: Seq<char>,
    protection: bool,
)
    ensures
        ({
            let found = resolution(disk, path, served_root, allowed_root, protection);
            let tree = (disk.canonical)(allowed_root)->0;
            let is_script = |rel: Seq<char>|
                php_source(rel) && there(disk, served_root, tree, rel, false, protection);
            let file = static_path(path);
            let index = joined(directory_path(path)->0, "index.php"@);
            let (script, info) = php_split(path)->0;
            let named_whole = file is Some && (is_script(file->0) || there(
                disk,
                served_root,
                tree,
                file->0,
                true,
                protection,
            ));
            let has_index = file is None && directory_path(path) is Some && is_script(index);
            let asks = file is Some || directory_path(path) is Some;
            let rooted = (disk.canonical)(allowed_root) is Some;
            let has_split = php_split(path) is Some && is_script(script);
            &&& !rooted ==> found == ResolutionView::Fallback
            &&& rooted && file is Some && is_script(file->0) ==> found == ResolutionView::Script(file->0)
            &&& rooted && file is Some && !is_script(file->0) && there(
                disk,
                served_root,
                tree,
                file->0,
                true,
                protection,
            ) ==> found == ResolutionView::DirectoryRedirect
            &&& rooted && has_index ==> found == ResolutionView::Script(index)
            &&& rooted && asks && !named_whole && !has_index && has_split ==> found
                == ResolutionView::ScriptWithPathInfo(script, info)
            &&& rooted && !named_whole && !has_index && !has_split ==> found == ResolutionView::Fallback
            &&& rooted && !asks ==> found == ResolutionView::Fallback
        }),
{
}

/// The target of a rule is there where the tree is, and it is PHP source and a file in it.
pub proof fn law_rule_targets(
    disk: Disk,
    served_root: Seq<char>,
    allowed_root: Seq<char>,
    target: Seq<char>,
    protection: bool,
)
    ensures
        rule_target_is_there(disk, served_root, allowed_root, target, protection) <==> (
        disk.canonical)(allowed_root) is Some && php_source(target) && there(
            disk,
            served_root,
            (disk.canonical)(allowed_root)->0,
            target,
            false,
            protection,
        ),
{
}

proof fn lemma_named_push(pieces: Seq<Seq<char>>, piece: Seq<char>)
    ensures
        named(pieces.push(piece)) == if piece.len() == 0 {
            named(pieces)
        } else {
            named(pieces).push(piece)
        },
{
    assert(pieces.push(piece).drop_last() =~= pieces);
}

proof fn lemma_named_all(names: Seq<Seq<char>>)
    requires
        forall|i: int| 0 <= i < names.len() ==> (#[trigger] names[i]).len() > 0,
    ensures
        named(seq![Seq::<char>::empty()] + names) == names,
    decreases names.len(),
{
    let none = Seq::<char>::empty();
    let led = seq![none] + names;
    if names.len() == 0 {
        lemma_named_push(names, none);
        assert(led =~= names.push(none));
        assert(named(names) =~= names);
    } else {
        let head = names.drop_last();
        assert forall|i: int| 0 <= i < head.len() implies (#[trigger] head[i]).len() > 0 by {
            assert(head[i] == names[i]);
        }
        lemma_named_all(head);
        assert(names[names.len() - 1].len() > 0);
        lemma_named_push(seq![none] + head, names.last());
        assert(led =~= (seq![none] + head).push(names.last()));
        assert(head.push(names.last()) =~= names);
    }
}

proof fn lemma_components(names: Seq<Seq<char>>)
    requires
        forall|i: int|
            0 <= i < names.len() ==> (#[trigger] names[i]).len() > 0 && !names[i].contains('/'),
    ensures
        components(seq!['/'] + join(names, '/')) == seq!["/"@] + names,
{
    let none = Seq::<char>::empty();
    let path = seq!['/'] + join(names, '/');
    crate::redirect::lemma_split_lead(join(names, '/'), '/');
    lemma_named_all(names);
    if names.len() > 0 {
        lemma_split_join(names, '/');
    } else {
        assert(split(join(names, '/'), '/') =~= seq![none]);
        let pieces = seq![none] + seq![none];
        assert(pieces =~= seq![none].push(none));
        lemma_named_push(seq![none], none);
        assert(seq![none] =~= seq![none] + names);
    }
    assert(path[0] == '/');
}

/// One absolute path lies within another exactly where the names on the way to the other
/// are the first on the way to it: whole names, not mere beginnings of them.
pub proof fn law_containment(names: Seq<Seq<char>>, root: Seq<Seq<char>>)
    requires
        forall|i: int|
            0 <= i < names.len() ==> (#[trigger] names[i]).len() > 0 && !names[i].contains('/'),
        forall|i: int|
            0 <= i < root.len() ==> (#[trigger] root[i]).len() > 0 && !root[i].contains('/'),
    ensures
        ({
            let path = seq!['/'] + join(names, '/');
            let tree = seq!['/'] + join(root, '/');
            &&& within(path, tree) <==> root.is_prefix_of(names)
            &&& root.is_prefix_of(names) ==> containment(path, tree) == ContainmentView::Within(path)
            &&& !root.is_prefix_of(names) ==> containment(path, tree) == ContainmentView::Escaped(path)
        }),
{
    lemma_components(names);
    lemma_components(root);
    let a = seq!["/"@] + names;
    let b = seq!["/"@] + root;
    if root.is_prefix_of(names) {
        assert(root == names.subrange(0, root.len() as int));
        assert(b =~= a.subrange(0, b.len() as int));
    }
    if b.is_prefix_of(a) {
        assert forall|i: int| 0 <= i < root.len() implies root[i] == names[i] by {
            assert(b[i + 1] == a.subrange(0, b.len() as int)[i + 1]);
        }
        assert(root =~= names.subrange(0, root.len() as int));
    }
}

/// What a request for a PHP site comes to. The file that the path names comes first, then
/// the index of the directory; then, on a site that executes scripts directly, what the
/// path resolves to: a script with its extra path, or, for a read, the redirect to the
/// trailing slash.
pub proof fn law_php_requests<R>(request: PhpRequest, world: World<R>)
    ensures
        ({
            let outcome = php_outcome(request, world);
            let last = route_outcome(request, world);
            let found = resolution(
                world.disk,
                request_path(request.target@),
                request.served_root@,
                request.allowed_root@,
                request.symlink_protection,
            );
            let unserved = world.file is NotFound && world.index is NotFound;
            &&& !(world.file is NotFound) ==> outcome == Outcome::Static(world.file)
            &&& world.file is NotFound && !(world.index is NotFound) ==> outcome == Outcome::Static(
                world.index,
            )
            &&& unserved && !world.direct ==> outcome == last
            &&& unserved && world.direct ==> match found {
                ResolutionView::Script(rel) => outcome == Outcome::<R>::Forward(Some(rel), None, false),
                ResolutionView::ScriptWithPathInfo(rel, info) => outcome == Outcome::<R>::Forward(
                    Some(rel),
                    Some(info),
                    false,
                ),
                ResolutionView::DirectoryRedirect => outcome == if request.method@ == "GET"@
                    || request.method@ == "HEAD"@ {
                    Outcome::Redirect
                } else {
                    last
                },
                ResolutionView::Fallback => outcome == last,
            }
        }),
{
}

/// What a request comes to that no file and no script has answered. Without a rule the
/// site's own index page answers, and else its root `index.php`. A rule leads to its
/// script, or, for a read, to its file; and where the target is not there, the root
/// `index.php` answers and the rule is said to be unusable.
pub proof fn law_routed_requests<R>(request: PhpRequest, world: World<R>)
    ensures
        ({
            let outcome = route_outcome(request, world);
            let rule = request.route->0.target@;
            let usable = rule_target_is_there(
                world.disk,
                request.served_root@,
                request.allowed_root@,
                rule,
                request.symlink_protection,
            );
            let reading = request.method@ == "GET"@ || request.method@ == "HEAD"@;
            &&& request.route is None && world.site_index is NotFound ==> outcome
                == Outcome::<R>::Forward(None, None, false)
            &&& request.route is None && !(world.site_index is NotFound) ==> outcome == Outcome::Static(
                world.site_index,
            )
            &&& request.route is Some && php_source(rule) && usable ==> outcome == Outcome::<R>::Forward(
                Some(rule),
                None,
                false,
            )
            &&& request.route is Some && php_source(rule) && !usable ==> outcome
                == Outcome::<R>::Forward(None, None, true)
            &&& request.route is Some && !php_source(rule) && !reading ==> outcome
                == Outcome::<R>::NotAllowed
            &&& request.route is Some && !php_source(rule) && reading && world.rule_file is NotFound
                ==> outcome == Outcome::<R>::Forward(None, None, true)
            &&& request.route is Some && !php_source(rule) && reading && !(world.rule_file is NotFound)
                ==> outcome == Outcome::Static(world.rule_file)
        }),
{
}

/// How an outcome is acted on: a file goes out as it was served, and one outside of the tree
/// is refused by its own paths; a redirect leads to the trailing slash and is not kept; a
/// request that is forwarded goes to its script, with its extra path.
pub proof fn law_outcomes_are_acted_on<R>(
    action: PhpAction<R>,
    request: PhpRequest,
    outcome: Outcome<R>,
)
    requires
        is_outcome(action, request, outcome),
    ensures
        match outcome {
            Outcome::Static(StaticOutcome::Served(response)) => action == PhpAction::Respond(response),
            Outcome::Static(
                StaticOutcome::SymlinkEscape { requested_path, resolved, allowed_root },
            ) => action is Refuse && action->requested_path == requested_path && action->resolved
                == resolved && action->allowed_root == allowed_root,
            Outcome::Static(StaticOutcome::NotFound) => false,
            Outcome::Redirect => action is Reply && (valid_value(
                encode_utf8(directory_location(request.target@)),
            ) ==> action->Reply_0 is Ok && action->Reply_0->Ok_0.status == 301 && values_of(
                header_groups(action->Reply_0->Ok_0.headers),
                "location"@,
            ) == seq![encode_utf8(directory_location(request.target@))] && values_of(
                header_groups(action->Reply_0->Ok_0.headers),
                "cache-control"@,
            ) == seq![encode_utf8("no-store"@)]),
            Outcome::NotAllowed => action is Reply && action->Reply_0 is Ok
                && action->Reply_0->Ok_0.status == 405 && action->Reply_0->Ok_0.body@ == encode_utf8(
                "405 Method Not Allowed\n\nThis path is served by a static routing rule target, which only answers GET and HEAD.\n"@,
            ) && values_of(
                header_groups(action->Reply_0->Ok_0.headers),
                "allow"@,
            ) == seq![encode_utf8("GET, HEAD"@)],
            Outcome::Forward(script, info, unusable) => action is Forward && action->unusable_rule
                == unusable && match script {
                Some(rel) => action->script_rel is Some && action->script_rel->0@ == rel,
                None => action->script_rel is None,
            } && match info {
                Some(extra) => action->path_info is Some && action->path_info->0@ == extra,
                None => action->path_info is None,
            },
        },
{
    crate::laws::replies::law_moves_name_their_location(directory_location(request.target@), true);
    crate::laws::replies::law_pages("text/plain; charset=utf-8"@, false);
}

/// Every attempt to serve a file names the right one: first the directory of the path, then
/// the root, and for a rule its target.
pub proof fn law_attempts_name_their_files<R>(
    request: PhpRequest,
    from: PhpState,
    event: PhpEvent<R>,
    next: PhpState,
    action: PhpAction<R>,
)
    requires
        php_step(request, from, event, next, action),
    ensures
        next is Index ==> action is TryServeIndex && action->TryServeIndex_0@ == request_path(
            request.target@,
        ),
        next is SiteIndex ==> action is TryServeIndex && action->TryServeIndex_0@ == "/"@,
        next is RuleFile ==> action is ServeTarget && request.route is Some && action->ServeTarget_0@
            == request.route->0.target@,
        next is Direct ==> action is AskDirect,
        next is Script || next is RuleScript ==> action is Ask,
{
}

/// A method that reads is `GET` or `HEAD`.
pub proof fn law_reading_methods(method: Seq<char>)
    ensures
        reads(method) <==> method == "GET"@ || method == "HEAD"@,
{
}

} // verus!
