//! Query parameters, taken as they stand in the URL.

use vstd::prelude::*;
use vstd::utf8::encode_utf8;

use crate::cgi_params::{
    law_target_is_path_and_query, opt_view, query_part, split_path_query,
};
use crate::text::{
    has_char, join, join_str, lemma_encode_concat, lemma_join_split, lemma_split_first, lemma_split_free, lemma_split_join,
    lemma_split_nonempty, split, split_str, str_eq, strip_prefix, views,
};
use crate::try_files::path_part;

verus! {

/// The name of a `name=value` pair, or of a pair that is a bare name.
pub open spec fn key_of(pair: Seq<char>) -> Seq<char> {
    split(pair, '=')[0]
}

/// The value of a pair; a bare name has an empty one.
pub open spec fn value_of(pair: Seq<char>) -> Seq<char> {
    if key_of(pair).len() < pair.len() {
        pair.skip(key_of(pair).len() as int + 1)
    } else {
        Seq::empty()
    }
}

/// The value of the first pair called `name`.
pub open spec fn first_value(pairs: Seq<Seq<char>>, name: Seq<char>) -> Option<Seq<char>>
    decreases pairs.len(),
{
    if pairs.len() == 0 {
        None
    } else {
        match first_value(pairs.drop_last(), name) {
            Some(v) => Some(v),
            None => if key_of(pairs.last()) == name {
                Some(value_of(pairs.last()))
            } else {
                None
            },
        }
    }
}

/// The value of the parameter `name` in a query.
pub open spec fn param(query: Option<Seq<char>>, name: Seq<char>) -> Option<Seq<char>> {
    match query {
        Some(q) => first_value(split(q, '&'), name),
        None => None,
    }
}

/// The query of a target.
pub open spec fn query_of(target: Seq<char>) -> Option<Seq<char>> {
    if target.contains('?') {
        Some(query_part(target))
    } else {
        None
    }
}

/// The pairs that are not called `name`.
pub open spec fn without(pairs: Seq<Seq<char>>, name: Seq<char>) -> Seq<Seq<char>>
    decreases pairs.len(),
{
    if pairs.len() == 0 {
        Seq::empty()
    } else if key_of(pairs.last()) == name {
        without(pairs.drop_last(), name)
    } else {
        without(pairs.drop_last(), name).push(pairs.last())
    }
}

/// `target` without the parameter `name`.
pub open spec fn stripped(target: Seq<char>, name: Seq<char>) -> Seq<char> {
    let rest = join(without(split(query_part(target), '&'), name), '&');
    if !target.contains('?') {
        target
    } else if rest.len() == 0 {
        path_part(target)
    } else {
        path_part(target).push('?') + rest
    }
}

/// The name of a pair and its value.
fn split_pair(pair: &str) -> (r: (String, String))
    ensures
        r.0@ == key_of(pair@),
        r.1@ == value_of(pair@),
{
    let pieces: Vec<String> = split_str(pair, '=');
    let key: String = pieces[0].clone();
    assert(views(pieces@)[0] == pieces@[0]@);
    let mut lead: String = key.clone();
    lead.push('=');
    proof {
        lemma_pair(pair@);
    }
    match strip_prefix(pair, lead.as_str()) {
        Some(value) => (key, value),
        None => (key, String::new()),
    }
}

/// A pair is its name, followed, unless it is a bare name, by `=` and its value.
proof fn lemma_pair(pair: Seq<char>)
    ensures
        key_of(pair).len() <= pair.len(),
        key_of(pair).len() < pair.len() <==> key_of(pair).push('=').is_prefix_of(pair),
{
    if pair.contains('=') {
        let k = pair.index_of_first('=')->0;
        pair.index_of_first_ensures('=');
        let a = pair.take(k);
        let b = pair.skip(k + 1);
        assert(!a.contains('=')) by {
            if a.contains('=') {
                let j = choose|j: int| 0 <= j < a.len() && a[j] == '=';
                assert(pair[j] == '=');
            }
        }
        assert(pair =~= a.push('=') + b);
        lemma_split_first(a, b, '=');
        assert(a.push('=') =~= pair.subrange(0, k + 1));
    } else {
        lemma_split_first(pair, Seq::empty(), '=');
    }
}

/// The value of the parameter `name` in a query.
pub fn get_param(query: Option<&str>, name: &str) -> (r: Option<String>)
    ensures
        r is Some <==> param(opt_view(query), name@) is Some,
        r is Some ==> r->0@ == param(opt_view(query), name@)->0,
{
    let q: &str = match query {
        Some(q) => q,
        None => {
            return None;
        },
    };
    let pairs: Vec<String> = split_str(q, '&');
    let ghost all = views(pairs@);
    let mut i: usize = 0;
    while i < pairs.len()
        invariant
            i <= pairs@.len(),
            all == views(pairs@),
            all == split(q@, '&'),
            opt_view(query) == Some(q@),
            first_value(all.take(i as int), name@) is None,
        decreases pairs@.len() - i,
    {
        proof {
            assert(all.take(i + 1).drop_last() =~= all.take(i as int));
            assert(all.take(i + 1).last() == pairs@[i as int]@);
        }
        let (key, value) = split_pair(pairs[i].as_str());
        if str_eq(key.as_str(), name) {
            proof {
                lemma_first_value(all, name@, i + 1, all.len() as int);
                assert(all.take(all.len() as int) =~= all);
            }
            return Some(value);
        }
        i = i + 1;
    }
    assert(all.take(i as int) =~= all);
    None
}

/// A value that was found stays the first.
proof fn lemma_first_value(pairs: Seq<Seq<char>>, name: Seq<char>, m: int, n: int)
    requires
        0 <= m <= n <= pairs.len(),
        first_value(pairs.take(m), name) is Some,
    ensures
        first_value(pairs.take(n), name) == first_value(pairs.take(m), name),
    decreases n - m,
{
    if m < n {
        assert(pairs.take(n).drop_last() =~= pairs.take(n - 1));
        lemma_first_value(pairs, name, m, n - 1);
    }
}

/// `path_and_query` without the parameter `name`.
pub fn strip_param(path_and_query: &str, name: &str) -> (r: String)
    ensures
        r@ == stripped(path_and_query@, name@),
{
    if !has_char(path_and_query, '?') {
        return path_and_query.to_owned();
    }
    let (path, query) = split_path_query(path_and_query);
    let pairs: Vec<String> = split_str(query.as_str(), '&');
    let ghost all = views(pairs@);
    let mut kept: Vec<String> = Vec::new();
    let mut i: usize = 0;
    assert(views(kept@) =~= Seq::empty());
    while i < pairs.len()
        invariant
            i <= pairs@.len(),
            all == views(pairs@),
            views(kept@) == without(all.take(i as int), name@),
        decreases pairs@.len() - i,
    {
        proof {
            assert(all.take(i + 1).drop_last() =~= all.take(i as int));
            assert(all.take(i + 1).last() == pairs@[i as int]@);
        }
        let (key, _) = split_pair(pairs[i].as_str());
        if !str_eq(key.as_str(), name) {
            let ghost before = views(kept@);
            kept.push(pairs[i].clone());
            assert(views(kept@) =~= before.push(pairs@[i as int]@));
        }
        i = i + 1;
    }
    assert(all.take(i as int) =~= all);
    let rest: String = join_str(&kept, '&');
    if rest.as_str().is_empty() {
        path
    } else {
        let mut r: String = path;
        r.push('?');
        r.append(rest.as_str());
        r
    }
}

/// What `without` leaves: no pair of that name, and the first value of every other
/// name.
proof fn lemma_without(pairs: Seq<Seq<char>>, name: Seq<char>, other: Seq<char>)
    ensures
        first_value(without(pairs, name), name) is None,
        other != name ==> first_value(without(pairs, name), other) == first_value(pairs, other),
        (forall|i: int| 0 <= i < pairs.len() ==> !(#[trigger] pairs[i]).contains('&')) ==> (forall|
            i: int,
        |
            0 <= i < without(pairs, name).len() ==> !(#[trigger] without(pairs, name)[i]).contains(
                '&',
            )),
    decreases pairs.len(),
{
    if pairs.len() > 0 {
        let head = pairs.drop_last();
        lemma_without(head, name, other);
        if key_of(pairs.last()) != name {
            assert(without(pairs, name).drop_last() =~= without(head, name));
        }
        if forall|i: int| 0 <= i < pairs.len() ==> !(#[trigger] pairs[i]).contains('&') {
            assert forall|i: int| 0 <= i < head.len() implies !(#[trigger] head[i]).contains('&') by {
                assert(head[i] == pairs[i]);
            }
            assert(!pairs[pairs.len() - 1].contains('&'));
            assert forall|i: int| 0 <= i < without(pairs, name).len() implies !(#[trigger] without(
                pairs,
                name,
            )[i]).contains('&') by {
                if i < without(head, name).len() {
                    assert(without(pairs, name)[i] == without(head, name)[i]);
                }
            }
        }
    }
}

/// Pairs whose join is empty have no name.
proof fn lemma_empty_join(pairs: Seq<Seq<char>>, name: Seq<char>)
    requires
        join(pairs, '&').len() == 0,
        name.len() > 0,
    ensures
        first_value(pairs, name) is None,
{
    if pairs.len() == 1 {
        assert(pairs[0] =~= Seq::empty());
        lemma_split_first(pairs[0], Seq::empty(), '=');
        assert(first_value(pairs.drop_last(), name) is None);
    } else if pairs.len() > 1 {
        assert(join(pairs, '&').len() > 0);
    }
}

/// The query of a target put together from a path and a query.
proof fn lemma_query_of(path: Seq<char>, query: Seq<char>)
    requires
        !path.contains('?'),
    ensures
        query_of(path.push('?') + query) == Some(query),
        path_part(path.push('?') + query) == path,
        query_of(path) is None,
        path_part(path) == path,
{
    let t = path.push('?') + query;
    lemma_split_first(path, query, '?');
    assert(t[path.len() as int] == '?');
    assert(t.skip(path.len() as int + 1) =~= query);
}

/// A stripped parameter is gone: reading the target back does not find it.
pub proof fn law_stripped_param_is_gone(target: Seq<char>, name: Seq<char>)
    requires
        name.len() > 0,
    ensures
        param(query_of(stripped(target, name)), name) is None,
{
    lemma_strip(target, name, name);
}

/// Stripping a parameter keeps the path.
pub proof fn law_stripping_keeps_the_path(target: Seq<char>, name: Seq<char>)
    ensures
        path_part(stripped(target, name)) == path_part(target),
{
    law_target_is_path_and_query(target);
    let path = path_part(target);
    lemma_query_of(path, query_part(target));
    lemma_query_of(path, join(without(split(query_part(target), '&'), name), '&'));
}

/// Stripping a parameter keeps the value of every other one.
pub proof fn law_stripping_keeps_other_params(
    target: Seq<char>,
    name: Seq<char>,
    other: Seq<char>,
)
    requires
        other.len() > 0,
        other != name,
    ensures
        param(query_of(stripped(target, name)), other) == param(query_of(target), other),
{
    lemma_strip(target, name, other);
}

/// Both halves of what stripping does to the parameters.
proof fn lemma_strip(target: Seq<char>, name: Seq<char>, other: Seq<char>)
    requires
        other.len() > 0,
    ensures
        other == name ==> param(query_of(stripped(target, name)), name) is None,
        other != name ==> param(query_of(stripped(target, name)), other) == param(
            query_of(target),
            other,
        ),
{
    law_target_is_path_and_query(target);
    let path = path_part(target);
    let query = query_part(target);
    if target.contains('?') {
        let pairs = split(query, '&');
        let kept = without(pairs, name);
        let rest = join(kept, '&');
        lemma_split_nonempty(query, '&');
        lemma_split_free(query, '&');
        lemma_without(pairs, name, other);
        lemma_query_of(path, query);
        lemma_query_of(path, rest);
        if rest.len() == 0 {
            lemma_empty_join(kept, other);
        } else {
            assert(kept.len() > 0);
            lemma_split_join(kept, '&');
        }
    } else {
        lemma_query_of(path, query);
    }
}

/// Dropping pairs makes a query no longer, and adds no character to it.
proof fn lemma_without_shrinks(pairs: Seq<Seq<char>>, name: Seq<char>)
    ensures
        encode_utf8(join(without(pairs, name), '&')).len() <= encode_utf8(join(pairs, '&')).len(),
        forall|k: int|
            0 <= k < join(without(pairs, name), '&').len() ==> join(pairs, '&').contains(
                #[trigger] join(without(pairs, name), '&')[k],
            ) || join(without(pairs, name), '&')[k] == '&',
    decreases pairs.len(),
{
    if pairs.len() > 0 {
        let head = pairs.drop_last();
        let last = pairs.last();
        let kept = without(head, name);
        lemma_without_shrinks(head, name);
        let all = join(pairs, '&');
        let less = join(without(pairs, name), '&');
        let before = join(head, '&');
        let left = join(kept, '&');
        if head.len() > 0 {
            assert(all == before.push('&') + last);
            lemma_encode_concat(before.push('&'), last);
            lemma_encode_concat(before, seq!['&']);
            assert(before + seq!['&'] =~= before.push('&'));
            assert forall|c: char| before.contains(c) || last.contains(c) implies all.contains(c) by {
                if before.contains(c) {
                    let k = before.index_of(c);
                    assert(all[k] == c);
                } else {
                    let k = last.index_of(c);
                    assert(all[before.len() + 1 + k] == c);
                }
            }
        } else {
            assert(kept.len() == 0);
            assert(all == last);
        }
        if key_of(last) != name {
            assert(without(pairs, name).drop_last() =~= kept);
            if kept.len() > 0 {
                assert(less == left.push('&') + last);
                lemma_encode_concat(left.push('&'), last);
                lemma_encode_concat(left, seq!['&']);
                assert(left + seq!['&'] =~= left.push('&'));
            } else {
                assert(less == last);
            }
        }
        assert forall|k: int| 0 <= k < less.len() implies all.contains(#[trigger] less[k]) || less[k]
            == '&' by {
            if key_of(last) == name {
                assert(before.contains(left[k]) || left[k] == '&');
            } else if k < left.len() {
                if kept.len() > 0 {
                    assert(before.contains(left[k]) || left[k] == '&');
                } else {
                    assert(last.contains(less[k]));
                }
            } else if less[k] != '&' || kept.len() == 0 {
                assert(last.contains(less[k])) by {
                    if kept.len() > 0 {
                        assert(last[k - left.len() - 1] == less[k]);
                    }
                }
            }
        }
    }
}

/// A stripped target is no longer than the target, and its query has no other
/// characters.
pub proof fn lemma_stripped_shrinks(target: Seq<char>, name: Seq<char>)
    ensures
        encode_utf8(stripped(target, name)).len() <= encode_utf8(target).len(),
        forall|k: int|
            0 <= k < query_part(stripped(target, name)).len() ==> query_part(target).contains(
                #[trigger] query_part(stripped(target, name))[k],
            ) || query_part(stripped(target, name))[k] == '&',
{
    law_target_is_path_and_query(target);
    if target.contains('?') {
        let path = path_part(target);
        let query = query_part(target);
        let rest = join(without(split(query, '&'), name), '&');
        lemma_without_shrinks(split(query, '&'), name);
        lemma_join_split(query, '&');
        lemma_query_of(path, query);
        lemma_query_of(path, rest);
        lemma_encode_concat(path.push('?'), query);
        lemma_encode_concat(path.push('?'), rest);
        lemma_encode_concat(path, seq!['?']);
        assert(path + seq!['?'] =~= path.push('?'));
        law_target_is_path_and_query(path);
    }
}

} // verus!
