//! Which PHP script on disk a request executes: the `try_files $uri $uri/index.php`
//! half of a front controller.
//!
//! A search asks the file system one question at a time. Its functions take the
//! answers that have come in so far, and say what to ask next or what was found; they
//! never read a file themselves. A script that leads out of the site's tree through a
//! symbolic link counts as missing while symlink protection is on.

use vstd::prelude::*;

use crate::text::{first_char, join_path, joined, split, split_str, str_eq, views};
use crate::try_files::{
    directory_candidate, directory_path, is_php_source, php_source, php_split, php_split_candidate,
    static_candidate, static_path,
};

verus! {

/// What a request path resolves to.
#[derive(Debug, PartialEq, Eq)]
pub enum ScriptResolution {
    /// A script on disk, relative to the served root.
    Script(String),
    /// A script on disk, and the `PATH_INFO` that the request adds to it.
    ScriptWithPathInfo(String, String),
    /// A directory whose trailing slash is missing.
    DirectoryRedirect,
    /// Nothing: the site's root `index.php` is to answer.
    Fallback,
}

/// What a [`ScriptResolution`] is.
pub enum ResolutionView {
    /// A script on disk.
    Script(Seq<char>),
    /// A script on disk with a `PATH_INFO`.
    ScriptWithPathInfo(Seq<char>, Seq<char>),
    /// A directory whose trailing slash is missing.
    DirectoryRedirect,
    /// Nothing.
    Fallback,
}

impl View for ScriptResolution {
    type V = ResolutionView;

    open spec fn view(&self) -> ResolutionView {
        match *self {
            ScriptResolution::Script(rel) => ResolutionView::Script(rel@),
            ScriptResolution::ScriptWithPathInfo(rel, info) => ResolutionView::ScriptWithPathInfo(
                rel@,
                info@,
            ),
            ScriptResolution::DirectoryRedirect => ResolutionView::DirectoryRedirect,
            ScriptResolution::Fallback => ResolutionView::Fallback,
        }
    }
}

/// Where a path leads once all symbolic links are followed.
#[derive(Debug)]
pub enum Containment {
    /// To this path, within the root.
    Within(String),
    /// To this path, outside of the root.
    Escaped(String),
}

/// What a [`Containment`] is.
pub enum ContainmentView {
    /// Within the root.
    Within(Seq<char>),
    /// Outside of the root.
    Escaped(Seq<char>),
}

impl View for Containment {
    type V = ContainmentView;

    open spec fn view(&self) -> ContainmentView {
        match *self {
            Containment::Within(path) => ContainmentView::Within(path@),
            Containment::Escaped(path) => ContainmentView::Escaped(path@),
        }
    }
}

/// The pieces of a path that are not empty.
pub open spec fn named(pieces: Seq<Seq<char>>) -> Seq<Seq<char>>
    decreases pieces.len(),
{
    if pieces.len() == 0 {
        Seq::empty()
    } else if pieces.last().len() == 0 {
        named(pieces.drop_last())
    } else {
        named(pieces.drop_last()).push(pieces.last())
    }
}

/// The components of a canonical path: the root, where the path begins there, and the
/// names on the way.
pub open spec fn components(path: Seq<char>) -> Seq<Seq<char>> {
    let names = named(split(path, '/'));
    if path.len() > 0 && path[0] == '/' {
        seq!["/"@] + names
    } else {
        names
    }
}

/// Whether a canonical path is `root` or lies below it: the components of `root` are
/// the first of its own.
pub open spec fn within(path: Seq<char>, root: Seq<char>) -> bool {
    components(root).is_prefix_of(components(path))
}

/// Where a canonical path lies, seen from a canonical root.
pub open spec fn containment(path: Seq<char>, root: Seq<char>) -> ContainmentView {
    if within(path, root) {
        ContainmentView::Within(path)
    } else {
        ContainmentView::Escaped(path)
    }
}

/// The components of a canonical path.
fn components_of(path: &str) -> (r: Vec<String>)
    ensures
        views(r@) == components(path@),
{
    let mut r: Vec<String> = Vec::new();
    let rooted: bool = match first_char(path) {
        Some(c) => c == '/',
        None => false,
    };
    if rooted {
        r.push("/".to_owned());
    }
    let ghost lead = views(r@);
    let pieces: Vec<String> = split_str(path, '/');
    let ghost all = views(pieces@);
    let mut i: usize = 0;
    assert(named(all.take(0)) =~= Seq::empty());
    assert(lead + Seq::<Seq<char>>::empty() =~= lead);
    while i < pieces.len()
        invariant
            i <= pieces@.len(),
            all == views(pieces@),
            views(r@) == lead + named(all.take(i as int)),
        decreases pieces@.len() - i,
    {
        let ghost before = views(r@);
        let ghost so_far = all.take(i + 1);
        proof {
            assert(so_far.drop_last() =~= all.take(i as int));
            assert(so_far.last() == pieces@[i as int]@);
        }
        if !str_eq(pieces[i].as_str(), "") {
            let name: String = pieces[i].clone();
            r.push(name);
            proof {
                reveal_strlit("");
                assert(views(r@) =~= before.push(name@));
                assert(before.push(name@) =~= lead + named(all.take(i as int)).push(name@));
                if name@.len() == 0 {
                    assert(name@ =~= ""@);
                }
            }
        } else {
            proof {
                reveal_strlit("");
            }
        }
        i = i + 1;
    }
    proof {
        assert(all.take(i as int) =~= all);
        assert(views(r@) =~= components(path@));
    }
    r
}

/// Whether a canonical path is `root` or lies below it.
pub fn is_contained(path: &str, root: &str) -> (r: bool)
    ensures
        r == within(path@, root@),
{
    let ours: Vec<String> = components_of(path);
    let theirs: Vec<String> = components_of(root);
    let ghost p = components(path@);
    let ghost q = components(root@);
    if theirs.len() > ours.len() {
        return false;
    }
    let mut i: usize = 0;
    while i < theirs.len()
        invariant
            i <= theirs@.len() <= ours@.len(),
            p == views(ours@),
            q == views(theirs@),
            p == components(path@),
            q == components(root@),
            forall|j: int| 0 <= j < i ==> #[trigger] q[j] == p[j],
        decreases theirs@.len() - i,
    {
        if !str_eq(ours[i].as_str(), theirs[i].as_str()) {
            proof {
                assert(p[i as int] == ours@[i as int]@ && q[i as int] == theirs@[i as int]@);
                assert(!q.is_prefix_of(p)) by {
                    if q.is_prefix_of(p) {
                        assert(q[i as int] == p.subrange(0, q.len() as int)[i as int]);
                    }
                }
            }
            return false;
        }
        assert(p[i as int] == ours@[i as int]@ && q[i as int] == theirs@[i as int]@);
        i = i + 1;
    }
    assert(q =~= p.subrange(0, q.len() as int));
    true
}

/// Where a canonical path lies, seen from a canonical root.
pub fn contain(path: String, root: &str) -> (r: Containment)
    ensures
        r@ == containment(path@, root@),
{
    if is_contained(path.as_str(), root) {
        Containment::Within(path)
    } else {
        Containment::Escaped(path)
    }
}

/// A question to the file system.
#[derive(Debug)]
pub enum Probe {
    /// What is the canonical form of this path?
    Canonicalize(String),
    /// Where does `path` lead, seen from the canonical `root`?
    Locate {
        /// The path.
        path: String,
        /// The root.
        root: String,
    },
    /// Is this a regular file?
    IsFile(String),
    /// Is this a directory?
    IsDirectory(String),
}

/// What a [`Probe`] is.
pub enum ProbeView {
    /// What is the canonical form of this path?
    Canonicalize(Seq<char>),
    /// Where does the first path lead, seen from the second?
    Locate(Seq<char>, Seq<char>),
    /// Is this a regular file?
    IsFile(Seq<char>),
    /// Is this a directory?
    IsDirectory(Seq<char>),
}

impl View for Probe {
    type V = ProbeView;

    open spec fn view(&self) -> ProbeView {
        match *self {
            Probe::Canonicalize(path) => ProbeView::Canonicalize(path@),
            Probe::Locate { path, root } => ProbeView::Locate(path@, root@),
            Probe::IsFile(path) => ProbeView::IsFile(path@),
            Probe::IsDirectory(path) => ProbeView::IsDirectory(path@),
        }
    }
}

/// An answer of the file system.
#[derive(Debug)]
pub enum Answer {
    /// The canonical form, where there is one.
    Path(Option<String>),
    /// Where a path leads, where it exists.
    Located(Option<Containment>),
    /// Whether it is so.
    Is(bool),
}

/// What an [`Answer`] is.
pub enum AnswerView {
    /// The canonical form, where there is one.
    Path(Option<Seq<char>>),
    /// Where a path leads, where it exists.
    Located(Option<ContainmentView>),
    /// Whether it is so.
    Is(bool),
}

impl View for Answer {
    type V = AnswerView;

    open spec fn view(&self) -> AnswerView {
        match *self {
            Answer::Path(p) => AnswerView::Path(
                match p {
                    Some(p) => Some(p@),
                    None => None,
                },
            ),
            Answer::Located(c) => AnswerView::Located(
                match c {
                    Some(c) => Some(c@),
                    None => None,
                },
            ),
            Answer::Is(b) => AnswerView::Is(b),
        }
    }
}

/// The views of answers.
pub open spec fn answer_views(answers: Seq<Answer>) -> Seq<AnswerView> {
    answers.map_values(|a: Answer| a@)
}

/// How far the search for one file or directory has come: a question, or whether it
/// was found and how many answers that took.
pub enum EntryView {
    /// This is to be asked.
    Ask(ProbeView),
    /// It is there.
    Found(int),
    /// It is not there.
    Missing(int),
}

/// The path that counts, where a symbolic link may lead out of the root only without
/// protection.
pub open spec fn accepted(located: AnswerView, symlink_protection: bool) -> Option<Seq<char>> {
    match located {
        AnswerView::Located(Some(ContainmentView::Within(path))) => Some(path),
        AnswerView::Located(Some(ContainmentView::Escaped(path))) => if symlink_protection {
            None
        } else {
            Some(path)
        },
        _ => None,
    }
}

/// The search for `rel` below the served root, with the answers from `at` on.
pub open spec fn entry(
    served_root: Seq<char>,
    real_root: Seq<char>,
    rel: Seq<char>,
    directory: bool,
    symlink_protection: bool,
    answers: Seq<AnswerView>,
    at: int,
) -> EntryView {
    if at >= answers.len() {
        EntryView::Ask(ProbeView::Locate(joined(served_root, rel), real_root))
    } else {
        match accepted(answers[at], symlink_protection) {
            None => EntryView::Missing(at + 1),
            Some(path) => if at + 1 >= answers.len() {
                if directory {
                    EntryView::Ask(ProbeView::IsDirectory(path))
                } else {
                    EntryView::Ask(ProbeView::IsFile(path))
                }
            } else if answers[at + 1] == AnswerView::Is(true) {
                EntryView::Found(at + 2)
            } else {
                EntryView::Missing(at + 2)
            },
        }
    }
}

/// The search for the PHP script `rel`: what is no PHP source is not looked for.
pub open spec fn php_entry(
    served_root: Seq<char>,
    real_root: Seq<char>,
    rel: Seq<char>,
    symlink_protection: bool,
    answers: Seq<AnswerView>,
    at: int,
) -> EntryView {
    if php_source(rel) {
        entry(served_root, real_root, rel, false, symlink_protection, answers, at)
    } else {
        EntryView::Missing(at)
    }
}

/// How far a search has come.
pub enum SearchView {
    /// This is to be asked.
    Ask(ProbeView),
    /// This was found.
    Done(ResolutionView),
}

/// The last resort of a search: the script within the request path.
pub open spec fn split_search(
    uri_path: Seq<char>,
    served_root: Seq<char>,
    real_root: Seq<char>,
    symlink_protection: bool,
    answers: Seq<AnswerView>,
    at: int,
) -> SearchView {
    match php_split(uri_path) {
        None => SearchView::Done(ResolutionView::Fallback),
        Some((rel, info)) => match php_entry(
            served_root,
            real_root,
            rel,
            symlink_protection,
            answers,
            at,
        ) {
            EntryView::Ask(probe) => SearchView::Ask(probe),
            EntryView::Found(_) => SearchView::Done(ResolutionView::ScriptWithPathInfo(rel, info)),
            EntryView::Missing(_) => SearchView::Done(ResolutionView::Fallback),
        },
    }
}

/// The search for what a request path resolves to: the script of that name; else the
/// directory of that name, which lacks its slash; for a directory request, its own
/// `index.php`; and else the script within the path.
pub open spec fn script_search(
    uri_path: Seq<char>,
    served_root: Seq<char>,
    allowed_root: Seq<char>,
    symlink_protection: bool,
    answers: Seq<AnswerView>,
) -> SearchView {
    if answers.len() == 0 {
        SearchView::Ask(ProbeView::Canonicalize(allowed_root))
    } else {
        match answers[0] {
            AnswerView::Path(Some(root)) => match (static_path(uri_path), directory_path(uri_path)) {
                (Some(rel), _) => match php_entry(
                    served_root,
                    root,
                    rel,
                    symlink_protection,
                    answers,
                    1,
                ) {
                    EntryView::Ask(probe) => SearchView::Ask(probe),
                    EntryView::Found(_) => SearchView::Done(ResolutionView::Script(rel)),
                    EntryView::Missing(at) => match entry(
                        served_root,
                        root,
                        rel,
                        true,
                        symlink_protection,
                        answers,
                        at,
                    ) {
                        EntryView::Ask(probe) => SearchView::Ask(probe),
                        EntryView::Found(_) => SearchView::Done(ResolutionView::DirectoryRedirect),
                        EntryView::Missing(at) => split_search(
                            uri_path,
                            served_root,
                            root,
                            symlink_protection,
                            answers,
                            at,
                        ),
                    },
                },
                (None, Some(dir)) => {
                    let rel = joined(dir, "index.php"@);
                    match php_entry(served_root, root, rel, symlink_protection, answers, 1) {
                        EntryView::Ask(probe) => SearchView::Ask(probe),
                        EntryView::Found(_) => SearchView::Done(ResolutionView::Script(rel)),
                        EntryView::Missing(at) => split_search(
                            uri_path,
                            served_root,
                            root,
                            symlink_protection,
                            answers,
                            at,
                        ),
                    }
                },
                (None, None) => SearchView::Done(ResolutionView::Fallback),
            },
            _ => SearchView::Done(ResolutionView::Fallback),
        }
    }
}

/// How far the search for one file or directory has come.
enum Entry {
    Ask(Probe),
    Found,
    Missing(usize),
}

/// Whether `e` is what `v` says.
spec fn same_entry(e: Entry, v: EntryView) -> bool {
    match (e, v) {
        (Entry::Ask(p), EntryView::Ask(q)) => p@ == q,
        (Entry::Found, EntryView::Found(_)) => true,
        (Entry::Missing(i), EntryView::Missing(j)) => i == j,
        _ => false,
    }
}

/// The path that an answer leads to, where it counts.
fn accept(answer: &Answer, symlink_protection: bool) -> (r: Option<String>)
    ensures
        r is Some <==> accepted(answer@, symlink_protection) is Some,
        r is Some ==> r->0@ == accepted(answer@, symlink_protection)->0,
{
    match answer {
        Answer::Located(Some(Containment::Within(path))) => Some(path.clone()),
        Answer::Located(Some(Containment::Escaped(path))) => if symlink_protection {
            None
        } else {
            Some(path.clone())
        },
        _ => None,
    }
}

/// The search for `rel` below the served root, with the answers from `at` on.
fn find_entry(
    served_root: &str,
    real_root: &str,
    rel: &str,
    directory: bool,
    symlink_protection: bool,
    answers: &Vec<Answer>,
    at: usize,
) -> (r: Entry)
    ensures
        same_entry(
            r,
            entry(
                served_root@,
                real_root@,
                rel@,
                directory,
                symlink_protection,
                answer_views(answers@),
                at as int,
            ),
        ),
        r is Missing ==> r->Missing_0 <= answers@.len(),
{
    if at >= answers.len() {
        return Entry::Ask(
            Probe::Locate { path: join_path(served_root, rel), root: real_root.to_owned() },
        );
    }
    assert(answer_views(answers@)[at as int] == answers@[at as int]@);
    match accept(&answers[at], symlink_protection) {
        None => Entry::Missing(at + 1),
        Some(path) => {
            if at + 1 >= answers.len() {
                return Entry::Ask(
                    if directory {
                        Probe::IsDirectory(path)
                    } else {
                        Probe::IsFile(path)
                    },
                );
            }
            assert(answer_views(answers@)[at + 1] == answers@[at + 1]@);
            match answers[at + 1] {
                Answer::Is(true) => Entry::Found,
                _ => Entry::Missing(at + 2),
            }
        },
    }
}

/// The search for the PHP script `rel`.
fn existing_php_file(
    served_root: &str,
    real_root: &str,
    rel: &str,
    symlink_protection: bool,
    answers: &Vec<Answer>,
    at: usize,
) -> (r: Entry)
    requires
        at <= answers@.len(),
    ensures
        same_entry(
            r,
            php_entry(
                served_root@,
                real_root@,
                rel@,
                symlink_protection,
                answer_views(answers@),
                at as int,
            ),
        ),
        r is Missing ==> r->Missing_0 <= answers@.len(),
{
    if is_php_source(rel) {
        find_entry(served_root, real_root, rel, false, symlink_protection, answers, at)
    } else {
        Entry::Missing(at)
    }
}

/// The search for the directory `rel`.
fn is_existing_directory(
    served_root: &str,
    real_root: &str,
    rel: &str,
    symlink_protection: bool,
    answers: &Vec<Answer>,
    at: usize,
) -> (r: Entry)
    ensures
        same_entry(
            r,
            entry(
                served_root@,
                real_root@,
                rel@,
                true,
                symlink_protection,
                answer_views(answers@),
                at as int,
            ),
        ),
        r is Missing ==> r->Missing_0 <= answers@.len(),
{
    find_entry(served_root, real_root, rel, true, symlink_protection, answers, at)
}

/// What a search comes to.
#[derive(Debug)]
pub enum Search {
    /// This is to be asked; its answer is to be added to the answers.
    Ask(Probe),
    /// This was found.
    Done(ScriptResolution),
}

impl View for Search {
    type V = SearchView;

    open spec fn view(&self) -> SearchView {
        match *self {
            Search::Ask(probe) => SearchView::Ask(probe@),
            Search::Done(found) => SearchView::Done(found@),
        }
    }
}

/// The last resort of a search: the script within the request path. It comes after
/// all others, so it never shadows a file or a directory.
fn split_path_info(
    uri_path: &str,
    served_root: &str,
    real_root: &str,
    symlink_protection: bool,
    answers: &Vec<Answer>,
    at: usize,
) -> (r: Search)
    requires
        at <= answers@.len(),
    ensures
        r@ == split_search(
            uri_path@,
            served_root@,
            real_root@,
            symlink_protection,
            answer_views(answers@),
            at as int,
        ),
{
    match php_split_candidate(uri_path) {
        None => Search::Done(ScriptResolution::Fallback),
        Some((rel, info)) => match existing_php_file(
            served_root,
            real_root,
            rel.as_str(),
            symlink_protection,
            answers,
            at,
        ) {
            Entry::Ask(probe) => Search::Ask(probe),
            Entry::Found => Search::Done(ScriptResolution::ScriptWithPathInfo(rel, info)),
            Entry::Missing(_) => Search::Done(ScriptResolution::Fallback),
        },
    }
}

/// Resolve a request path against the site's tree, with the answers that have come in
/// so far.
pub fn resolve_script(
    uri_path: &str,
    served_root: &str,
    allowed_root: &str,
    symlink_protection: bool,
    answers: &Vec<Answer>,
) -> (r: Search)
    ensures
        r@ == script_search(
            uri_path@,
            served_root@,
            allowed_root@,
            symlink_protection,
            answer_views(answers@),
        ),
{
    if answers.len() == 0 {
        return Search::Ask(Probe::Canonicalize(allowed_root.to_owned()));
    }
    assert(answer_views(answers@)[0] == answers@[0]@);
    let root: &str = match &answers[0] {
        Answer::Path(Some(root)) => root.as_str(),
        _ => {
            return Search::Done(ScriptResolution::Fallback);
        },
    };

    if let Some(rel) = static_candidate(uri_path) {
        let at: usize = match existing_php_file(
            served_root,
            root,
            rel.as_str(),
            symlink_protection,
            answers,
            1,
        ) {
            Entry::Ask(probe) => {
                return Search::Ask(probe);
            },
            Entry::Found => {
                return Search::Done(ScriptResolution::Script(rel));
            },
            Entry::Missing(at) => at,
        };
        let at: usize = match is_existing_directory(
            served_root,
            root,
            rel.as_str(),
            symlink_protection,
            answers,
            at,
        ) {
            Entry::Ask(probe) => {
                return Search::Ask(probe);
            },
            Entry::Found => {
                return Search::Done(ScriptResolution::DirectoryRedirect);
            },
            Entry::Missing(at) => at,
        };
        return split_path_info(uri_path, served_root, root, symlink_protection, answers, at);
    }

    let dir: String = match directory_candidate(uri_path) {
        Some(dir) => dir,
        None => {
            return Search::Done(ScriptResolution::Fallback);
        },
    };
    let rel: String = join_path(dir.as_str(), "index.php");
    match existing_php_file(served_root, root, rel.as_str(), symlink_protection, answers, 1) {
        Entry::Ask(probe) => Search::Ask(probe),
        Entry::Found => Search::Done(ScriptResolution::Script(rel)),
        Entry::Missing(at) => split_path_info(
            uri_path,
            served_root,
            root,
            symlink_protection,
            answers,
            at,
        ),
    }
}

/// How far the search for a rule's target has come.
pub enum RuleSearchView {
    /// This is to be asked.
    Ask(ProbeView),
    /// Whether the target is there.
    Done(bool),
}

/// The search for the PHP target of a routing rule.
pub open spec fn rule_search(
    served_root: Seq<char>,
    allowed_root: Seq<char>,
    target: Seq<char>,
    symlink_protection: bool,
    answers: Seq<AnswerView>,
) -> RuleSearchView {
    if answers.len() == 0 {
        RuleSearchView::Ask(ProbeView::Canonicalize(allowed_root))
    } else {
        match answers[0] {
            AnswerView::Path(Some(root)) => match php_entry(
                served_root,
                root,
                target,
                symlink_protection,
                answers,
                1,
            ) {
                EntryView::Ask(probe) => RuleSearchView::Ask(probe),
                EntryView::Found(_) => RuleSearchView::Done(true),
                EntryView::Missing(_) => RuleSearchView::Done(false),
            },
            _ => RuleSearchView::Done(false),
        }
    }
}

/// What the search for a rule's target comes to.
#[derive(Debug)]
pub enum RuleSearch {
    /// This is to be asked; its answer is to be added to the answers.
    Ask(Probe),
    /// Whether the target is there.
    Done(bool),
}

impl View for RuleSearch {
    type V = RuleSearchView;

    open spec fn view(&self) -> RuleSearchView {
        match *self {
            RuleSearch::Ask(probe) => RuleSearchView::Ask(probe@),
            RuleSearch::Done(found) => RuleSearchView::Done(found),
        }
    }
}

/// Whether the PHP target of a routing rule is there, within the site's tree, with the
/// answers that have come in so far.
pub fn resolve_rule_target(
    served_root: &str,
    allowed_root: &str,
    target_rel: &str,
    symlink_protection: bool,
    answers: &Vec<Answer>,
) -> (r: RuleSearch)
    ensures
        r@ == rule_search(
            served_root@,
            allowed_root@,
            target_rel@,
            symlink_protection,
            answer_views(answers@),
        ),
{
    if answers.len() == 0 {
        return RuleSearch::Ask(Probe::Canonicalize(allowed_root.to_owned()));
    }
    assert(answer_views(answers@)[0] == answers@[0]@);
    match &answers[0] {
        Answer::Path(Some(root)) => match existing_php_file(
            served_root,
            root.as_str(),
            target_rel,
            symlink_protection,
            answers,
            1,
        ) {
            Entry::Ask(probe) => RuleSearch::Ask(probe),
            Entry::Found => RuleSearch::Done(true),
            Entry::Missing(_) => RuleSearch::Done(false),
        },
        _ => RuleSearch::Done(false),
    }
}

/// A file system, as far as a search asks about it.
pub struct Disk {
    /// The canonical form of a path, where it exists.
    pub canonical: spec_fn(Seq<char>) -> Option<Seq<char>>,
    /// Where a path leads, seen from a root, where it exists.
    pub located: spec_fn(Seq<char>, Seq<char>) -> Option<ContainmentView>,
    /// Whether a path is a regular file.
    pub file: spec_fn(Seq<char>) -> bool,
    /// Whether a path is a directory.
    pub directory: spec_fn(Seq<char>) -> bool,
}

/// What a file system answers.
pub open spec fn reply(disk: Disk, probe: ProbeView) -> AnswerView {
    match probe {
        ProbeView::Canonicalize(path) => AnswerView::Path((disk.canonical)(path)),
        ProbeView::Locate(path, root) => AnswerView::Located((disk.located)(path, root)),
        ProbeView::IsFile(path) => AnswerView::Is((disk.file)(path)),
        ProbeView::IsDirectory(path) => AnswerView::Is((disk.directory)(path)),
    }
}

/// Whether a file or directory is there, within the root or under no protection.
pub open spec fn is_there(
    disk: Disk,
    served_root: Seq<char>,
    real_root: Seq<char>,
    rel: Seq<char>,
    directory: bool,
    symlink_protection: bool,
) -> bool {
    match accepted(
        AnswerView::Located((disk.located)(joined(served_root, rel), real_root)),
        symlink_protection,
    ) {
        Some(path) => if directory {
            (disk.directory)(path)
        } else {
            (disk.file)(path)
        },
        None => false,
    }
}

/// Whether a PHP script is there.
pub open spec fn script_is_there(
    disk: Disk,
    served_root: Seq<char>,
    real_root: Seq<char>,
    rel: Seq<char>,
    symlink_protection: bool,
) -> bool {
    php_source(rel) && is_there(disk, served_root, real_root, rel, false, symlink_protection)
}

/// What a request path resolves to on a file system.
pub open spec fn resolution(
    disk: Disk,
    uri_path: Seq<char>,
    served_root: Seq<char>,
    allowed_root: Seq<char>,
    symlink_protection: bool,
) -> ResolutionView {
    match (disk.canonical)(allowed_root) {
        None => ResolutionView::Fallback,
        Some(root) => {
            let otherwise = match php_split(uri_path) {
                Some((rel, info)) => if script_is_there(
                    disk,
                    served_root,
                    root,
                    rel,
                    symlink_protection,
                ) {
                    ResolutionView::ScriptWithPathInfo(rel, info)
                } else {
                    ResolutionView::Fallback
                },
                None => ResolutionView::Fallback,
            };
            match (static_path(uri_path), directory_path(uri_path)) {
                (Some(rel), _) => if script_is_there(
                    disk,
                    served_root,
                    root,
                    rel,
                    symlink_protection,
                ) {
                    ResolutionView::Script(rel)
                } else if is_there(disk, served_root, root, rel, true, symlink_protection) {
                    ResolutionView::DirectoryRedirect
                } else {
                    otherwise
                },
                (None, Some(dir)) => {
                    let rel = joined(dir, "index.php"@);
                    if script_is_there(disk, served_root, root, rel, symlink_protection) {
                        ResolutionView::Script(rel)
                    } else {
                        otherwise
                    }
                },
                (None, None) => ResolutionView::Fallback,
            }
        },
    }
}

/// Answers that a file system gave to the questions of a search, in their order.
pub open spec fn truthful(
    disk: Disk,
    uri_path: Seq<char>,
    served_root: Seq<char>,
    allowed_root: Seq<char>,
    symlink_protection: bool,
    answers: Seq<AnswerView>,
) -> bool {
    forall|i: int|
        0 <= i < answers.len() ==> {
            let so_far = script_search(
                uri_path,
                served_root,
                allowed_root,
                symlink_protection,
                answers.take(i),
            );
            &&& so_far is Ask
            &&& #[trigger] answers[i] == reply(disk, so_far->Ask_0)
        }
}

/// A search that is answered truthfully finds what the request path resolves to on
/// that file system, with at most seven questions.
#[verifier::spinoff_prover]
#[verifier::rlimit(30)]
pub proof fn law_search_finds_the_resolution(
    disk: Disk,
    uri_path: Seq<char>,
    served_root: Seq<char>,
    allowed_root: Seq<char>,
    symlink_protection: bool,
    answers: Seq<AnswerView>,
)
    requires
        truthful(disk, uri_path, served_root, allowed_root, symlink_protection, answers),
    ensures
        match script_search(uri_path, served_root, allowed_root, symlink_protection, answers) {
            SearchView::Ask(_) => answers.len() < 7,
            SearchView::Done(found) => found == resolution(
                disk,
                uri_path,
                served_root,
                allowed_root,
                symlink_protection,
            ),
        },
{
    let n = answers.len() as int;
    if n > 0 {
        assert(answers[0] == AnswerView::Path((disk.canonical)(allowed_root)));
    }
    if n > 1 {
        assert(answers[1] is Located);
    }
    if n > 2 {
        assert(answers[2] is Located || answers[2] is Is);
    }
    if n > 3 {
        assert(answers[3] is Located || answers[3] is Is);
    }
    if n > 4 {
        assert(answers[4] is Located || answers[4] is Is);
    }
    if n > 5 {
        assert(answers[5] is Located || answers[5] is Is);
    }
    if n > 6 {
        assert(answers[6] is Located || answers[6] is Is);
    }
    if n > 7 {
        assert(answers[7] is Located || answers[7] is Is);
    }
}

/// A script that a request resolves to is PHP source, is a file, and, while symlink
/// protection is on, lies within the site's tree.
pub proof fn law_scripts_stay_within_the_tree(
    disk: Disk,
    uri_path: Seq<char>,
    served_root: Seq<char>,
    allowed_root: Seq<char>,
    symlink_protection: bool,
)
    ensures
        ({
            let found = resolution(
                disk,
                uri_path,
                served_root,
                allowed_root,
                symlink_protection,
            );
            let rel = match found {
                ResolutionView::Script(rel) => Some(rel),
                ResolutionView::ScriptWithPathInfo(rel, _) => Some(rel),
                _ => None,
            };
            rel is Some ==> {
                &&& (disk.canonical)(allowed_root) is Some
                &&& php_source(rel->0)
                &&& match (disk.located)(
                    joined(served_root, rel->0),
                    (disk.canonical)(allowed_root)->0,
                ) {
                    Some(ContainmentView::Within(path)) => (disk.file)(path),
                    Some(ContainmentView::Escaped(path)) => !symlink_protection && (disk.file)(path),
                    None => false,
                }
            }
        }),
{
}

/// A request that is split at a script names no script and no directory as a whole: a
/// split shadows nothing.
pub proof fn law_splits_shadow_nothing(
    disk: Disk,
    uri_path: Seq<char>,
    served_root: Seq<char>,
    allowed_root: Seq<char>,
    symlink_protection: bool,
)
    requires
        resolution(
            disk,
            uri_path,
            served_root,
            allowed_root,
            symlink_protection,
        ) is ScriptWithPathInfo,
    ensures
        (disk.canonical)(allowed_root) is Some,
        ({
            let root = (disk.canonical)(allowed_root)->0;
            static_path(uri_path) is Some ==> {
                &&& !script_is_there(
                    disk,
                    served_root,
                    root,
                    static_path(uri_path)->0,
                    symlink_protection,
                )
                &&& !is_there(
                    disk,
                    served_root,
                    root,
                    static_path(uri_path)->0,
                    true,
                    symlink_protection,
                )
            }
        }),
{
}

/// Answers that a file system gave to the questions of the search for a rule's target.
pub open spec fn rule_truthful(
    disk: Disk,
    served_root: Seq<char>,
    allowed_root: Seq<char>,
    target: Seq<char>,
    symlink_protection: bool,
    answers: Seq<AnswerView>,
) -> bool {
    forall|i: int|
        0 <= i < answers.len() ==> {
            let so_far = rule_search(
                served_root,
                allowed_root,
                target,
                symlink_protection,
                answers.take(i),
            );
            &&& so_far is Ask
            &&& #[trigger] answers[i] == reply(disk, so_far->Ask_0)
        }
}

/// Whether the PHP target of a routing rule is there, within the site's tree.
pub open spec fn rule_target_is_there(
    disk: Disk,
    served_root: Seq<char>,
    allowed_root: Seq<char>,
    target: Seq<char>,
    symlink_protection: bool,
) -> bool {
    match (disk.canonical)(allowed_root) {
        Some(root) => script_is_there(disk, served_root, root, target, symlink_protection),
        None => false,
    }
}

/// A file system in which a path leads to its canonical form.
pub open spec fn follows_links(disk: Disk) -> bool {
    forall|path: Seq<char>, root: Seq<char>|
        (#[trigger] (disk.located)(path, root)) == match (disk.canonical)(path) {
            Some(end) => Some(containment(end, root)),
            None => None,
        }
}

/// Whether a path below the served root leads to a file below the allowed one.
pub open spec fn lies_below(
    disk: Disk,
    served_root: Seq<char>,
    allowed_root: Seq<char>,
    rel: Seq<char>,
) -> bool {
    match ((disk.canonical)(joined(served_root, rel)), (disk.canonical)(allowed_root)) {
        (Some(end), Some(root)) => within(end, root) && (disk.file)(end),
        _ => false,
    }
}

/// While symlink protection is on, every script that a request or a rule leads to is a
/// file whose canonical path lies below that of the site's tree.
pub proof fn law_protected_scripts_lie_below_the_root(
    disk: Disk,
    uri_path: Seq<char>,
    served_root: Seq<char>,
    allowed_root: Seq<char>,
    target: Seq<char>,
)
    requires
        follows_links(disk),
    ensures
        match resolution(disk, uri_path, served_root, allowed_root, true) {
            ResolutionView::Script(rel) => lies_below(disk, served_root, allowed_root, rel),
            ResolutionView::ScriptWithPathInfo(rel, _) => lies_below(
                disk,
                served_root,
                allowed_root,
                rel,
            ),
            _ => true,
        },
        rule_target_is_there(disk, served_root, allowed_root, target, true) ==> lies_below(
            disk,
            served_root,
            allowed_root,
            target,
        ),
{
}

/// A search for a rule's target that is answered truthfully finds whether it is there,
/// with at most three questions.
pub proof fn law_rule_search_finds_the_target(
    disk: Disk,
    served_root: Seq<char>,
    allowed_root: Seq<char>,
    target: Seq<char>,
    symlink_protection: bool,
    answers: Seq<AnswerView>,
)
    requires
        rule_truthful(disk, served_root, allowed_root, target, symlink_protection, answers),
    ensures
        match rule_search(served_root, allowed_root, target, symlink_protection, answers) {
            RuleSearchView::Ask(_) => answers.len() < 3,
            RuleSearchView::Done(found) => found == rule_target_is_there(
                disk,
                served_root,
                allowed_root,
                target,
                symlink_protection,
            ),
        },
{
    let n = answers.len() as int;
    if n > 0 {
        assert(answers[0] == AnswerView::Path((disk.canonical)(allowed_root)));
    }
    if n > 1 {
        assert(answers[1] is Located);
    }
    if n > 2 {
        assert(answers[2] is Located || answers[2] is Is);
    }
    if n > 3 {
        assert(answers[3] is Located || answers[3] is Is);
    }
}

/// One more truthful answer.
pub proof fn lemma_truthful_push(
    disk: Disk,
    uri_path: Seq<char>,
    served_root: Seq<char>,
    allowed_root: Seq<char>,
    symlink_protection: bool,
    answers: Seq<AnswerView>,
    answer: AnswerView,
)
    requires
        truthful(disk, uri_path, served_root, allowed_root, symlink_protection, answers),
        ({
            let so_far = script_search(
                uri_path,
                served_root,
                allowed_root,
                symlink_protection,
                answers,
            );
            so_far is Ask && answer == reply(disk, so_far->Ask_0)
        }),
    ensures
        truthful(
            disk,
            uri_path,
            served_root,
            allowed_root,
            symlink_protection,
            answers.push(answer),
        ),
{
    let all = answers.push(answer);
    assert forall|i: int| 0 <= i < all.len() implies {
        let so_far = script_search(
            uri_path,
            served_root,
            allowed_root,
            symlink_protection,
            all.take(i),
        );
        &&& so_far is Ask
        &&& #[trigger] all[i] == reply(disk, so_far->Ask_0)
    } by {
        if i < answers.len() {
            assert(all.take(i) =~= answers.take(i));
            assert(all[i] == answers[i]);
        } else {
            assert(all.take(i) =~= answers);
        }
    }
}

/// One more truthful answer.
pub proof fn lemma_rule_truthful_push(
    disk: Disk,
    served_root: Seq<char>,
    allowed_root: Seq<char>,
    target: Seq<char>,
    symlink_protection: bool,
    answers: Seq<AnswerView>,
    answer: AnswerView,
)
    requires
        rule_truthful(disk, served_root, allowed_root, target, symlink_protection, answers),
        ({
            let so_far = rule_search(
                served_root,
                allowed_root,
                target,
                symlink_protection,
                answers,
            );
            so_far is Ask && answer == reply(disk, so_far->Ask_0)
        }),
    ensures
        rule_truthful(
            disk,
            served_root,
            allowed_root,
            target,
            symlink_protection,
            answers.push(answer),
        ),
{
    let all = answers.push(answer);
    assert forall|i: int| 0 <= i < all.len() implies {
        let so_far = rule_search(
            served_root,
            allowed_root,
            target,
            symlink_protection,
            all.take(i),
        );
        &&& so_far is Ask
        &&& #[trigger] all[i] == reply(disk, so_far->Ask_0)
    } by {
        if i < answers.len() {
            assert(all.take(i) =~= answers.take(i));
            assert(all[i] == answers[i]);
        } else {
            assert(all.take(i) =~= answers);
        }
    }
}

} // verus!
