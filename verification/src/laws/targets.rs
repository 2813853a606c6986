//! Laws of [`query`](crate::query), [`login`](crate::login) and
//! [`redirect`](crate::redirect).

use vstd::prelude::*;

use crate::cgi_params::query_part;
use crate::login::{
    is_left, is_signed_in, origin_form, presented_token, settled_target, spent_target, target_of,
    LoginTokenConsumer,
};
use crate::query::{first_value, key_of, param, query_of, stripped, value_of, without};
use crate::redirect::directory_location;
use crate::text::{join, lemma_split_first, split};
use crate::try_files::{path_part, request_path, rooted_target};
use crate::unbound::stripped_slashes;

verus! {

/// Whether a piece of a query is the parameter `name`, with a value or bare.
pub open spec fn is_called(piece: Seq<char>, name: Seq<char>) -> bool {
    ||| piece == name
    ||| piece.len() > name.len() && piece.take(name.len() as int) == name && piece[name.len() as int]
        == '='
}

/// The value that such a piece gives; a bare name gives an empty one.
pub open spec fn given(piece: Seq<char>, name: Seq<char>) -> Seq<char> {
    if piece.len() > name.len() {
        piece.skip(name.len() as int + 1)
    } else {
        Seq::empty()
    }
}

proof fn lemma_called(piece: Seq<char>, name: Seq<char>)
    requires
        !name.contains('='),
    ensures
        key_of(piece) == name <==> is_called(piece, name),
        is_called(piece, name) ==> value_of(piece) == given(piece, name),
{
    if is_called(piece, name) {
        if piece == name {
            lemma_split_first(name, Seq::empty(), '=');
        } else {
            let v = piece.skip(name.len() as int + 1);
            assert(piece =~= name.push('=') + v);
            lemma_split_first(name, v, '=');
        }
    }
    if key_of(piece) == name {
        if piece.contains('=') {
            let k = piece.index_of_first('=')->0;
            piece.index_of_first_ensures('=');
            let a = piece.take(k);
            assert(!a.contains('=')) by {
                if a.contains('=') {
                    let j = choose|j: int| 0 <= j < a.len() && a[j] == '=';
                    assert(piece[j] == '=');
                }
            }
            assert(piece =~= a.push('=') + piece.skip(k + 1));
            lemma_split_first(a, piece.skip(k + 1), '=');
        } else {
            lemma_split_first(piece, Seq::empty(), '=');
        }
    }
}

proof fn lemma_first_value(pieces: Seq<Seq<char>>, name: Seq<char>)
    requires
        !name.contains('='),
    ensures
        match first_value(pieces, name) {
            Some(v) => exists|i: int|
                0 <= i < pieces.len() && is_called(#[trigger] pieces[i], name) && v == given(
                    pieces[i],
                    name,
                ) && (forall|j: int| 0 <= j < i ==> !is_called(#[trigger] pieces[j], name)),
            None => forall|j: int| 0 <= j < pieces.len() ==> !is_called(#[trigger] pieces[j], name),
        },
    decreases pieces.len(),
{
    if pieces.len() > 0 {
        let head = pieces.drop_last();
        let n = pieces.len() - 1;
        lemma_first_value(head, name);
        lemma_called(pieces.last(), name);
        match first_value(head, name) {
            Some(v) => {
                let i = choose|i: int|
                    0 <= i < head.len() && is_called(#[trigger] head[i], name) && v == given(
                        head[i],
                        name,
                    ) && (forall|j: int| 0 <= j < i ==> !is_called(#[trigger] head[j], name));
                assert(pieces[i] == head[i]);
                assert forall|j: int| 0 <= j < i implies !is_called(#[trigger] pieces[j], name) by {
                    assert(pieces[j] == head[j]);
                }
            },
            None => {
                assert(pieces[n] == pieces.last());
                assert forall|j: int| 0 <= j < n implies !is_called(#[trigger] pieces[j], name) by {
                    assert(pieces[j] == head[j]);
                }
            },
        }
    }
}

/// A parameter is read from the first piece of the query that is called so, as it stands
/// there; and it is missing only where none is.
pub proof fn law_the_first_parameter_is_read(query: Seq<char>, name: Seq<char>)
    requires
        !name.contains('='),
    ensures
        param(None, name) is None,
        ({
            let pieces = split(query, '&');
            match param(Some(query), name) {
                Some(v) => exists|i: int|
                    0 <= i < pieces.len() && is_called(#[trigger] pieces[i], name) && v == given(
                        pieces[i],
                        name,
                    ) && (forall|j: int| 0 <= j < i ==> !is_called(#[trigger] pieces[j], name)),
                None => forall|j: int| 0 <= j < pieces.len() ==> !is_called(#[trigger] pieces[j], name),
            }
        }),
{
    lemma_first_value(split(query, '&'), name);
}

/// The pieces that are not called `name`.
pub open spec fn others(pieces: Seq<Seq<char>>, name: Seq<char>) -> Seq<Seq<char>> {
    pieces.filter(|p: Seq<char>| !is_called(p, name))
}

proof fn lemma_without_is(pieces: Seq<Seq<char>>, name: Seq<char>)
    requires
        !name.contains('='),
    ensures
        without(pieces, name) == others(pieces, name),
    decreases pieces.len(),
{
    reveal(Seq::filter);
    if pieces.len() > 0 {
        lemma_without_is(pieces.drop_last(), name);
        lemma_called(pieces.last(), name);
    } else {
        assert(without(pieces, name) =~= others(pieces, name));
    }
}

proof fn lemma_cut(path: Seq<char>, query: Seq<char>)
    requires
        !path.contains('?'),
    ensures
        path_part(path) == path,
        path_part(path + seq!['?'] + query) == path,
        query_part(path + seq!['?'] + query) == query,
        query_of(path + seq!['?'] + query) == Some(query),
        query_of(path) is None,
        (path + seq!['?'] + query).contains('?'),
{
    let whole = path + seq!['?'] + query;
    assert(whole =~= path.push('?') + query);
    lemma_split_first(path, query, '?');
    assert(whole[path.len() as int] == '?');
    assert(whole.skip(path.len() as int + 1) =~= query);
}

/// Stripping a parameter leaves out every piece that is called so, and keeps the path and
/// all other pieces as they are, in their order; the `?` goes with the last of them.
pub proof fn law_stripping_leaves_the_others(path: Seq<char>, query: Seq<char>, name: Seq<char>)
    requires
        !path.contains('?'),
        !name.contains('='),
    ensures
        stripped(path, name) == path,
        ({
            let kept = join(others(split(query, '&'), name), '&');
            stripped(path + seq!['?'] + query, name) == if kept.len() == 0 {
                path
            } else {
                path + seq!['?'] + kept
            }
        }),
{
    lemma_cut(path, query);
    lemma_without_is(split(query, '&'), name);
    let kept = join(others(split(query, '&'), name), '&');
    assert(path.push('?') + kept =~= path + seq!['?'] + kept);
}

/// A login token is looked for on the paths of the administration only, and there it is
/// the first parameter of its name.
pub proof fn law_tokens_are_presented(path: Seq<char>, query: Seq<char>)
    requires
        !path.contains('?'),
    ensures
        presented_token(path) is None,
        path.len() >= 9 && path.take(9) == "/wp-admin"@ ==> presented_token(
            path + seq!['?'] + query,
        ) == param(Some(query), "yerd_login_token"@),
        path.len() < 9 || path.take(9) != "/wp-admin"@ ==> presented_token(
            path + seq!['?'] + query,
        ) is None,
{
    reveal_strlit("/wp-admin");
    lemma_cut(path, query);
    if path.len() >= 9 {
        assert(path.take(9) =~= path.subrange(0, 9));
    }
}

/// What a spent token leaves to be forwarded: the path and query that the rest was read
/// as, the root where it has none, and the request as it was where it could not be read.
pub proof fn law_spent_targets(target: Seq<char>, rest: Seq<char>)
    ensures
        spent_target(target, Some(Some(rest))) == rest,
        spent_target(target, Some(None)) == seq!['/'],
        spent_target(target, None) == target,
        target_of(Some(Some(rest))) == Some(rest),
        target_of(Some(None)) == Some(seq!['/']),
        target_of(None) is None,
{
    reveal_strlit("/");
    assert("/"@ =~= seq!['/']);
}

/// The trailing-slash form of a path: the path, a slash, and the query as it was.
pub proof fn law_directory_redirects(path: Seq<char>, query: Seq<char>)
    requires
        path.len() > 1,
        path[0] == '/',
        path[1] != '/' && path[1] != '\\',
        !path.contains('?'),
    ensures
        directory_location(path) == path + seq!['/'],
        directory_location(path + seq!['?'] + query) == path + seq!['/', '?'] + query,
{
    lemma_cut(path, query);
    let rest = path.skip(1);
    assert(stripped_slashes(rest) == rest);
    assert(seq!['/'] + rest =~= path);
    let none = Seq::<char>::empty();
    assert(path.skip(path.len() as int) =~= none);
    assert(path.push('/') + none =~= path + seq!['/']);
    let whole = path + seq!['?'] + query;
    assert(whole.skip(path.len() as int) =~= seq!['?'] + query);
    assert(path.push('/') + (seq!['?'] + query) =~= path + seq!['/', '?'] + query);
}

/// A request is routed by what stands before its query, and by the root where nothing
/// does; one without path and query has no path, and is sent to the root.
pub proof fn law_request_paths(path: Seq<char>, query: Seq<char>)
    requires
        path.len() > 0,
        !path.contains('?'),
    ensures
        request_path(path) == path,
        request_path(path + seq!['?'] + query) == path,
        request_path(seq!['?'] + query) == seq!['/'],
        request_path(Seq::empty()).len() == 0,
        rooted_target(path) == path,
        rooted_target(path + seq!['?'] + query) == path + seq!['?'] + query,
        rooted_target(seq!['?'] + query) == seq!['?'] + query,
        rooted_target(Seq::empty()) == seq!['/'],
        query_of(path + seq!['?'] + query) == Some(query),
        query_of(path) is None,
{
    reveal_strlit("/");
    assert("/"@ =~= seq!['/']);
    lemma_cut(path, query);
    let none = Seq::<char>::empty();
    lemma_cut(none, query);
    assert(none + seq!['?'] + query =~= seq!['?'] + query);
}

/// Without a user who was signed in a request stays as it was, and with one it is what its
/// token left.
pub proof fn law_settled_targets(target: Seq<char>, rest: Seq<char>)
    ensures
        settled_target(target, false, Some(Some(rest))) == target,
        settled_target(target, false, Some(None)) == target,
        settled_target(target, true, Some(Some(rest))) == rest,
        settled_target(target, true, Some(None)) == seq!['/'],
        settled_target(target, true, None) == target,
{
    law_spent_targets(target, rest);
}

/// A user is signed in on the paths of the administration only, and there by the first
/// parameter that is a token: it is what the consumer says of that token on that site.
pub proof fn law_logins<L: LoginTokenConsumer>(
    login_tokens: &L,
    site_name: &str,
    path: Seq<char>,
    query: Seq<char>,
    r: Option<String>,
)
    requires
        !path.contains('?'),
        is_signed_in(login_tokens, site_name, path + seq!['?'] + query, r),
    ensures
        r is Some ==> path.len() >= 9 && path.take(9) == "/wp-admin"@ && param(
            Some(query),
            "yerd_login_token"@,
        ) is Some,
        path.len() >= 9 && path.take(9) == "/wp-admin"@ && param(Some(query), "yerd_login_token"@)
            is Some ==> exists|token: &str| #[trigger]
            call_ensures(L::consume, (login_tokens, site_name, token), r) && token@ == param(
                Some(query),
                "yerd_login_token"@,
            )->0,
{
    law_tokens_are_presented(path, query);
}

/// A request is forwarded as it came unless a user was signed in; then it is forwarded
/// without any parameter that is a token, and with all others.
pub proof fn law_tokens_are_spent(path: Seq<char>, query: Seq<char>, signed_in: bool, after: Seq<char>)
    requires
        !path.contains('?'),
        origin_form(path + seq!['?'] + query),
        is_left(path + seq!['?'] + query, signed_in, after),
    ensures
        !signed_in ==> after == path + seq!['?'] + query,
        signed_in ==> {
            let kept = join(others(split(query, '&'), "yerd_login_token"@), '&');
            after == if kept.len() == 0 {
                path
            } else {
                path + seq!['?'] + kept
            }
        },
{
    reveal_strlit("yerd_login_token");
    assert(!"yerd_login_token"@.contains('=')) by {
        let s = "yerd_login_token"@;
        assert forall|i: int| 0 <= i < s.len() implies (#[trigger] s[i]) != '=' by {}
    }
    law_stripping_leaves_the_others(path, query, "yerd_login_token"@);
}

/// The trailing-slash form of any path stays on this host: its leading slashes and
/// backslashes become one slash, and everything else stays.
pub proof fn law_directory_redirects_stay_here(path: Seq<char>, query: Seq<char>)
    requires
        !path.contains('?'),
    ensures
        exists|n: int|
            0 <= n <= path.len() && directory_location(path) == seq!['/'] + #[trigger] path.skip(n)
                + seq!['/'] && directory_location(path + seq!['?'] + query) == seq!['/'] + path.skip(n)
                + seq!['/', '?'] + query && (forall|i: int|
                0 <= i < n ==> (#[trigger] path[i]) == '/' || path[i] == '\\') && (n < path.len()
                ==> path[n] != '/' && path[n] != '\\'),
{
    lemma_cut(path, query);
    crate::laws::loopback::lemma_stripped_slashes(path);
    let n = path.len() - stripped_slashes(path).len();
    let clean = seq!['/'] + path.skip(n);
    let whole = path + seq!['?'] + query;
    assert(directory_location(path) =~= clean + seq!['/']);
    assert(whole.skip(path.len() as int) =~= seq!['?'] + query);
    assert(directory_location(whole) =~= clean + seq!['/', '?'] + query);
    if n < path.len() {
        assert(path[n] == stripped_slashes(path)[0]);
    }
}

} // verus!
