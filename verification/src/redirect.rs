//! Where redirects lead.

use vstd::prelude::*;

use crate::cgi_params::{law_target_is_path_and_query, split_path_query};
use crate::sites::{host_without_port, without_port};
use crate::text::{
    chars_of, concat, decimal, decimal_str, lemma_split_first, lemma_split_nonempty, split, string_of,
};
use crate::try_files::{
    directory_path, law_unescaped_segments_decode_to_themselves, lemma_decoded_lead, path_part,
    percent_decoded, resolved, static_path,
};
use crate::unbound::{same_origin_path, sanitize_dest, stripped_slashes};

verus! {

/// The HTTPS form of a request: the same host, path and query on `port`, which is left
/// out where it is the default.
pub open spec fn redirect_uri(host: Seq<char>, target: Seq<char>, port: u16) -> Seq<char> {
    if port == 443 {
        "https://"@ + without_port(host) + target
    } else {
        "https://"@ + without_port(host) + ":"@ + decimal(port as nat) + target
    }
}

/// The HTTPS form of a request.
pub fn build_redirect_uri(host: &str, path_and_query: &str, port: u16) -> (r: String)
    ensures
        r@ == redirect_uri(host@, path_and_query@, port),
{
    let mut r: String = concat("https://", host_without_port(host).as_str());
    if port != 443 {
        r.append(":");
        r.append(decimal_str(port as u64).as_str());
    }
    r.append(path_and_query);
    r
}

/// A redirect to HTTPS keeps the path and the query as they are, a login token
/// included.
pub proof fn law_https_keeps_the_target(host: Seq<char>, target: Seq<char>, port: u16)
    ensures
        target.is_suffix_of(redirect_uri(host, target, port)),
        "https://"@.is_prefix_of(redirect_uri(host, target, port)),
{
    let uri = redirect_uri(host, target, port);
    let lead = uri.len() - target.len();
    assert(target =~= uri.subrange(lead, uri.len() as int));
    assert("https://"@ =~= uri.subrange(0, "https://"@.len() as int));
}

/// The trailing-slash form of a target, on the same origin, with its query.
pub open spec fn directory_location(target: Seq<char>) -> Seq<char> {
    same_origin_path(path_part(target)).push('/') + target.skip(path_part(target).len() as int)
}

/// The trailing-slash form of a target.
pub fn directory_redirect_location(path_and_query: &str) -> (r: String)
    ensures
        r@ == directory_location(path_and_query@),
{
    let (path, _) = split_path_query(path_and_query);
    let mut r: String = sanitize_dest(path.as_str());
    r.push('/');
    let chars: Vec<char> = chars_of(path_and_query);
    let n: usize = chars_of(path.as_str()).len();
    proof {
        law_target_is_path_and_query(path_and_query@);
        assert(n <= chars@.len());
        assert(chars@.subrange(n as int, chars@.len() as int) =~= path_and_query@.skip(n as int));
    }
    r.append(string_of(&chars, n, chars.len()).as_str());
    r
}

/// A separator in front adds an empty piece in front.
pub proof fn lemma_split_lead(s: Seq<char>, sep: char)
    ensures
        split(seq![sep] + s, sep) == seq![Seq::<char>::empty()] + split(s, sep),
    decreases s.len(),
{
    let t = seq![sep] + s;
    if s.len() == 0 {
        assert(t.drop_last().len() == 0 && t.last() == sep);
        assert(split(t.drop_last(), sep) == seq![Seq::<char>::empty()]);
        assert(split(t, sep) =~= seq![Seq::<char>::empty()] + split(s, sep));
    } else {
        lemma_split_lead(s.drop_last(), sep);
        lemma_split_nonempty(s.drop_last(), sep);
        assert(t.drop_last() =~= seq![sep] + s.drop_last());
        let prev = split(s.drop_last(), sep);
        let lead = seq![Seq::<char>::empty()];
        if s.last() != sep {
            assert((lead + prev).drop_last() =~= lead + prev.drop_last());
            assert((lead + prev).last() == prev.last());
        }
        assert(split(t, sep) =~= lead + split(s, sep));
    }
}

/// An empty raw segment in front resolves to nothing.
proof fn lemma_resolved_lead(raws: Seq<Seq<char>>)
    ensures
        resolved(seq![Seq::<char>::empty()] + raws) == resolved(raws),
    decreases raws.len(),
{
    let lead = seq![Seq::<char>::empty()];
    law_unescaped_segments_decode_to_themselves(Seq::empty());
    if raws.len() == 0 {
        assert((lead + raws).drop_last() =~= Seq::empty());
        assert((lead + raws).last() =~= Seq::empty());
        assert(resolved(Seq::<Seq<char>>::empty()) == Some(Seq::<Seq<char>>::empty()));
        assert(raws =~= Seq::empty());
    } else {
        lemma_resolved_lead(raws.drop_last());
        assert((lead + raws).drop_last() =~= lead + raws.drop_last());
        assert((lead + raws).last() == raws.last());
    }
}

/// The slashes that a path begins with resolve to nothing, and no path that resolves
/// has a backslash behind them.
proof fn lemma_resolved_stripped(path: Seq<char>)
    requires
        resolved(split(path, '/')) is Some,
    ensures
        resolved(split(stripped_slashes(path), '/')) == resolved(split(path, '/')),
    decreases path.len(),
{
    if path.len() > 0 && path[0] == '/' {
        assert(path =~= seq!['/'] + path.skip(1));
        lemma_split_lead(path.skip(1), '/');
        lemma_resolved_lead(split(path.skip(1), '/'));
        lemma_resolved_stripped(path.skip(1));
    } else if path.len() > 0 && path[0] == '\\' {
        lemma_backslash(path);
    }
}

/// A path whose first segment begins with a backslash does not resolve.
proof fn lemma_backslash(path: Seq<char>)
    requires
        path.len() > 0,
        path[0] == '\\',
    ensures
        resolved(split(path, '/')) is None,
    decreases path.len(),
{
    let raws = split(path, '/');
    lemma_split_nonempty(path, '/');
    lemma_first_keeps(path);
    lemma_first_spoils(raws);
}

/// The first piece begins with the first character, where that is no separator.
proof fn lemma_first_keeps(path: Seq<char>)
    requires
        path.len() > 0,
        path[0] == '\\',
    ensures
        split(path, '/').len() > 0,
        split(path, '/')[0].len() > 0,
        split(path, '/')[0][0] == '\\',
    decreases path.len(),
{
    if path.len() == 1 {
        assert(path.drop_last() =~= Seq::empty());
        assert(split(path.drop_last(), '/') =~= seq![Seq::<char>::empty()]);
    } else {
        lemma_first_keeps(path.drop_last());
    }
}

/// A first raw segment that begins with a backslash spoils the path.
proof fn lemma_first_spoils(raws: Seq<Seq<char>>)
    requires
        raws.len() > 0,
        raws[0].len() > 0,
        raws[0][0] == '\\',
    ensures
        resolved(raws) is None,
    decreases raws.len(),
{
    if raws.len() == 1 {
        if let Some(seg) = percent_decoded(raws[0]) {
            lemma_decoded_lead(raws[0], '\\');
            assert(seg.contains(seg[0]));
        }
    } else {
        lemma_first_spoils(raws.drop_last());
    }
}

/// Following the trailing-slash redirect asks for the very directory that the request
/// without the slash named, so the redirect never leads to another redirect.
pub proof fn law_directory_redirect_resolves(target: Seq<char>)
    requires
        static_path(target) is Some,
    ensures
        directory_path(directory_location(target)) == static_path(target),
        static_path(directory_location(target)) is None,
{
    law_target_is_path_and_query(target);
    let path = path_part(target);
    let clean = same_origin_path(path);
    let slashed = clean.push('/');
    let rest = target.skip(path.len() as int);
    let location = directory_location(target);
    lemma_resolved_stripped(path);
    lemma_split_lead(stripped_slashes(path), '/');
    lemma_resolved_lead(split(stripped_slashes(path), '/'));
    assert(slashed.drop_last() =~= clean);
    law_unescaped_segments_decode_to_themselves(Seq::empty());
    assert(split(slashed, '/').drop_last() =~= split(clean, '/'));
    assert(split(slashed, '/').last() =~= Seq::empty());
    assert(!slashed.contains('?')) by {
        if slashed.contains('?') {
            let k = choose|k: int| 0 <= k < slashed.len() && slashed[k] == '?';
            lemma_stripped_chars(path, k - 1);
        }
    }
    if rest.len() == 0 {
        assert(location =~= slashed);
        lemma_split_first(slashed, Seq::empty(), '?');
    } else {
        assert(rest[0] == '?');
        assert(location =~= slashed.push('?') + rest.skip(1));
        lemma_split_first(slashed, rest.skip(1), '?');
    }
    assert(path_part(location) == slashed);
}

/// What is left of a path is a part of it.
proof fn lemma_stripped_chars(path: Seq<char>, k: int)
    ensures
        0 <= k < stripped_slashes(path).len() ==> path.contains(stripped_slashes(path)[k]),
    decreases path.len(),
{
    if path.len() > 0 && (path[0] == '/' || path[0] == '\\') {
        lemma_stripped_chars(path.skip(1), k);
        let rest = path.skip(1);
        if 0 <= k < stripped_slashes(path).len() {
            let c = stripped_slashes(path)[k];
            let j = choose|j: int| 0 <= j < rest.len() && rest[j] == c;
            assert(path[j + 1] == c);
        }
    }
}

} // verus!
