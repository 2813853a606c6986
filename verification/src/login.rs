//! The one-click login: a token in the query of `/wp-admin` that signs a user in once.

use vstd::prelude::*;
use vstd::utf8::encode_utf8;

use crate::cgi_params::{
    law_target_is_path_and_query, query_part, split_path_query, AutoLoginParams,
};
use crate::query::{
    get_param, law_stripped_param_is_gone, law_stripping_keeps_the_path, lemma_stripped_shrinks,
    param, query_of, strip_param, stripped,
};
use crate::text::{has_char, strip_prefix};
use crate::try_files::path_part;

verus! {

/// The query parameter that carries the token.
pub const LOGIN_TOKEN_PARAM: &'static str = "yerd_login_token";

/// Whoever issues login tokens.
pub trait LoginTokenConsumer {
    /// Spend `token` for `site`: the user to sign in as (`""` for no preference), or
    /// nothing where the token is not valid.
    fn consume(&self, site: &str, token: &str) -> Option<String>;
}

/// A character that stands in the path of a URI.
pub open spec fn path_char(c: char) -> bool {
    ||| c == '!'
    ||| '$' <= c <= ';'
    ||| c == '='
    ||| '@' <= c <= '_'
    ||| 'a' <= c <= 'z'
    ||| c == '|'
    ||| c == '~'
    ||| c == '"'
    ||| c == '{'
    ||| c == '}'
    ||| c >= '\u{80}'
}

/// A character that stands in the query of a URI.
pub open spec fn query_char(c: char) -> bool {
    ||| c == '!'
    ||| '$' <= c <= ';'
    ||| c == '='
    ||| '?' <= c <= '~'
    ||| c >= '\u{80}'
}

/// A target in the form in which a request line has it: an absolute path, with a query or
/// without, of at most 65534 bytes.
pub open spec fn origin_form(target: Seq<char>) -> bool {
    &&& target.len() > 0
    &&& target[0] == '/'
    &&& encode_utf8(target).len() <= 65534
    &&& forall|i: int|
        0 <= i < path_part(target).len() ==> path_char(#[trigger] path_part(target)[i])
    &&& forall|i: int|
        0 <= i < query_part(target).len() ==> query_char(#[trigger] query_part(target)[i])
}

/// What the `http` crate makes of a text as a URI: its path and query, where it has
/// them, or nothing where the text is no URI.
pub uninterp spec fn parsed_uri(text: Seq<char>) -> Option<Option<Seq<char>>>;

/// The view of an optional string in an option.
pub open spec fn uri_view(r: Option<Option<String>>) -> Option<Option<Seq<char>>> {
    match r {
        Some(Some(s)) => Some(Some(s@)),
        Some(None) => Some(None),
        None => None,
    }
}

/// `http::Uri::from_str`, and the path and query of the URI as text. A target in origin
/// form is read as it stands; what becomes of any other text has a name only.
#[verifier::external_body]
pub(crate) fn parse_uri(text: &str) -> (r: Option<Option<String>>)
    ensures
        uri_view(r) == parsed_uri(text@),
        origin_form(text@) ==> uri_view(r) == Some(Some(text@)),
{
    text.parse::<http::Uri>().ok().map(|uri| uri.path_and_query().map(|pq| pq.as_str().to_owned()))
}

/// The path and query of a parsed URI, or `/` where it has none.
pub open spec fn target_of(parsed: Option<Option<Seq<char>>>) -> Option<Seq<char>> {
    match parsed {
        Some(Some(target)) => Some(target),
        Some(None) => Some("/"@),
        None => None,
    }
}

/// The path and query of a parsed URI, or `/` where it has none.
pub fn path_and_query_or_root(parsed: Option<Option<String>>) -> (r: Option<String>)
    ensures
        r is Some <==> target_of(uri_view(parsed)) is Some,
        r is Some ==> r->0@ == target_of(uri_view(parsed))->0,
{
    match parsed {
        Some(Some(target)) => Some(target),
        Some(None) => Some("/".to_owned()),
        None => None,
    }
}

/// The path and query of a URI, or `/` where it has none; nothing where `uri` is no
/// URI.
pub fn path_and_query_of(uri: &str) -> (r: Option<String>)
    ensures
        r is Some <==> target_of(parsed_uri(uri@)) is Some,
        r is Some ==> r->0@ == target_of(parsed_uri(uri@))->0,
        origin_form(uri@) ==> r is Some && r->0@ == uri@,
{
    path_and_query_or_root(parse_uri(uri))
}

/// The token that a request presents: only ever on `/wp-admin`.
pub open spec fn presented_token(target: Seq<char>) -> Option<Seq<char>> {
    if "/wp-admin"@.is_prefix_of(path_part(target)) {
        param(query_of(target), "yerd_login_token"@)
    } else {
        None
    }
}

/// The token that a request presents.
pub fn login_token(target: &str) -> (r: Option<String>)
    ensures
        r is Some <==> presented_token(target@) is Some,
        r is Some ==> r->0@ == presented_token(target@)->0,
{
    let (path, query) = split_path_query(target);
    if strip_prefix(path.as_str(), "/wp-admin").is_none() {
        return None;
    }
    let query: Option<&str> = if has_char(target, '?') {
        Some(query.as_str())
    } else {
        None
    };
    get_param(query, LOGIN_TOKEN_PARAM)
}

/// The target that is forwarded once the token is spent: without the token, where the
/// `http` crate takes what is left for a URI.
pub open spec fn spent_target(target: Seq<char>, parsed: Option<Option<Seq<char>>>) -> Seq<char> {
    match target_of(parsed) {
        Some(t) => t,
        None => target,
    }
}

/// What is forwarded of a request that presented a token: the request as it was, unless
/// the token was good.
pub open spec fn settled_target(
    target: Seq<char>,
    good: bool,
    parsed: Option<Option<Seq<char>>>,
) -> Seq<char> {
    if good {
        spent_target(target, parsed)
    } else {
        target
    }
}

/// Settle a request that presented a token: what is forwarded, given whom the token
/// signs in and what the `http` crate made of the target without the token.
pub fn settle_login(
    target: &str,
    user: Option<String>,
    parsed: Option<Option<String>>,
) -> (r: (String, Option<String>))
    ensures
        r.1 == user,
        r.0@ == settled_target(target@, user is Some, uri_view(parsed)),
{
    match user {
        Some(user) => match path_and_query_or_root(parsed) {
            Some(new) => (new, Some(user)),
            None => (target.to_owned(), Some(user)),
        },
        None => (target.to_owned(), None),
    }
}

/// Whether `r` is whom a request signs in: no one without a token, and else whomever the
/// token is good for on that site.
pub open spec fn is_signed_in<L: LoginTokenConsumer>(
    login_tokens: &L,
    site_name: &str,
    target: Seq<char>,
    r: Option<String>,
) -> bool {
    &&& presented_token(target) is None ==> r is None
    &&& presented_token(target) is Some ==> exists|token: &str| #[trigger]
        call_ensures(L::consume, (login_tokens, site_name, token), r) && token@ == presented_token(
            target,
        )->0
}

/// Whether `after` is what a request is forwarded as: what it was, unless a user was signed
/// in, and then without the token.
pub open spec fn is_left(before: Seq<char>, signed_in: bool, after: Seq<char>) -> bool {
    let rest = stripped(before, "yerd_login_token"@);
    &&& !signed_in ==> after == before
    &&& signed_in ==> after == spent_target(before, parsed_uri(rest))
    &&& signed_in && origin_form(before) ==> after == rest && presented_token(after) is None
}

/// Spend the token of a request, if it presents one. The token is then taken out of
/// `target`, so that neither the script nor a log sees it. A token that is not valid
/// stays where it is. To be called only once the request is certain to be forwarded:
/// no redirect may cost a token.
pub fn consume_login_token_if_present<L: LoginTokenConsumer>(
    target: &mut String,
    site_name: &str,
    login_tokens: &L,
) -> (r: Option<String>)
    ensures
        is_signed_in(login_tokens, site_name, old(target)@, r),
        is_left(old(target)@, r is Some, final(target)@),
{
    let ghost before = target@;
    let token: String = match login_token(target.as_str()) {
        Some(token) => token,
        None => {
            return None;
        },
    };
    let user: Option<String> = login_tokens.consume(site_name, token.as_str());
    let parsed: Option<Option<String>> = parse_uri(
        strip_param(target.as_str(), LOGIN_TOKEN_PARAM).as_str(),
    );
    let (new, user) = settle_login(target.as_str(), user, parsed);
    proof {
        if origin_form(before) {
            lemma_stripped_origin_form(before, "yerd_login_token"@);
            law_spent_tokens_are_gone(before);
        }
    }
    *target = new;
    user
}

/// A target in origin form stays so without a parameter.
proof fn lemma_stripped_origin_form(target: Seq<char>, name: Seq<char>)
    requires
        origin_form(target),
    ensures
        origin_form(stripped(target, name)),
{
    let new = stripped(target, name);
    law_target_is_path_and_query(target);
    law_target_is_path_and_query(new);
    law_stripping_keeps_the_path(target, name);
    lemma_stripped_shrinks(target, name);
    assert(path_part(target).len() > 0) by {
        if path_part(target).len() == 0 {
            assert(target[0] == '?');
        }
    }
    assert(new[0] == path_part(new)[0] && target[0] == path_part(target)[0]);
    assert forall|i: int| 0 <= i < query_part(new).len() implies query_char(
        #[trigger] query_part(new)[i],
    ) by {
        let c = query_part(new)[i];
        if c != '&' {
            let q = query_part(target);
            let k = choose|k: int| 0 <= k < q.len() && q[k] == c;
            assert(query_char(q[k]));
        }
    }
}

/// A target without the token presents none.
pub proof fn law_spent_tokens_are_gone(target: Seq<char>)
    ensures
        presented_token(stripped(target, "yerd_login_token"@)) is None,
{
    reveal_strlit("yerd_login_token");
    law_stripped_param_is_gone(target, "yerd_login_token"@);
}

/// Whether `r` is what a login adds to the request.
pub open spec fn is_auto_login(
    r: Option<AutoLoginParams>,
    user: Option<String>,
    script: Option<&str>,
) -> bool {
    &&& r is Some <==> user is Some && script is Some
    &&& r is Some ==> r->0.target_user@ == user->0@ && r->0.prepend_script@ == script->0@
}

/// What a login adds to the request: something only where there is both a user and a
/// script to sign them in with.
pub fn auto_login<'a>(user: &'a Option<String>, prepend_script: Option<&'a str>) -> (r: Option<
    AutoLoginParams<'a>,
>)
    ensures
        is_auto_login(r, *user, prepend_script),
{
    match (user, prepend_script) {
        (Some(user), Some(script)) => Some(
            AutoLoginParams { prepend_script: script, target_user: user.as_str() },
        ),
        _ => None,
    }
}

} // verus!
