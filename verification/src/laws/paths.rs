//! Laws of [`try_files`](crate::try_files).

use vstd::prelude::*;

use crate::text::{
    join, lemma_join_holds, lemma_join_split, lemma_split_first, lemma_split_nonempty, split,
};
use crate::try_files::{
    directory_path, law_unescaped_segments_decode_to_themselves, percent_decoded, resolved,
    static_path,
};

verus! {

/// The segments of a path that are not empty.
pub open spec fn filled(raws: Seq<Seq<char>>) -> Seq<Seq<char>> {
    raws.filter(|r: Seq<char>| r.len() > 0)
}

/// Whether `seg` is a name in a directory: not empty, neither `.` nor `..`, and without
/// a separator or NUL.
pub open spec fn is_entry(seg: Seq<char>) -> bool {
    &&& seg.len() > 0
    &&& seg != seq!['.']
    &&& seg != seq!['.', '.']
    &&& forall|i: int| 0 <= i < seg.len() ==> (#[trigger] seg[i]) != '/' && seg[i] != '\\' && seg[i] != '\0'
}

/// Whether a raw segment decodes to a name in a directory.
pub open spec fn names_entry(raw: Seq<char>) -> bool {
    percent_decoded(raw) is Some && is_entry(percent_decoded(raw)->0)
}

/// What segments decode to.
pub open spec fn decoded(raws: Seq<Seq<char>>) -> Seq<Seq<char>> {
    raws.map_values(|r: Seq<char>| percent_decoded(r)->0)
}

proof fn lemma_safe_is_entry(seg: Seq<char>)
    ensures
        crate::try_files::safe_segment(seg) <==> is_entry(seg),
{
    reveal_strlit(".");
    reveal_strlit("..");
    assert("."@ =~= seq!['.']);
    assert(".."@ =~= seq!['.', '.']);
    if is_entry(seg) {
        assert forall|i: int| 0 <= i < seg.len() implies (#[trigger] seg[i]) != '/' && seg[i] != '\\'
            && seg[i] != '\0' by {}
    } else if crate::try_files::safe_segment(seg) {
        let i = choose|i: int|
            0 <= i < seg.len() && !((#[trigger] seg[i]) != '/' && seg[i] != '\\' && seg[i] != '\0');
        assert(seg.contains(seg[i]));
    }
}

/// Segments resolve exactly where those that are not empty all name an entry, and then to
/// these names in their order, however many there are.
proof fn lemma_resolved_all(raws: Seq<Seq<char>>)
    ensures
        (forall|i: int| 0 <= i < raws.len() && (#[trigger] raws[i]).len() > 0 ==> names_entry(raws[i]))
            <==> resolved(raws) is Some,
        resolved(raws) is Some ==> resolved(raws)->0 == decoded(filled(raws)),
    decreases raws.len(),
{
    reveal(Seq::filter);
    if raws.len() == 0 {
        assert(decoded(filled(raws)) =~= Seq::empty());
    } else {
        let head = raws.drop_last();
        let last = raws.last();
        lemma_resolved_all(head);
        law_unescaped_segments_decode_to_themselves(Seq::empty());
        if last.len() == 0 {
            assert(last =~= Seq::empty());
        } else if percent_decoded(last) is Some {
            lemma_safe_is_entry(percent_decoded(last)->0);
        }
        if forall|i: int|
            0 <= i < raws.len() && (#[trigger] raws[i]).len() > 0 ==> names_entry(raws[i]) {
            assert forall|i: int| 0 <= i < head.len() && (#[trigger] head[i]).len() > 0 implies names_entry(
                head[i],
            ) by {
                assert(head[i] == raws[i]);
            }
            assert(raws[raws.len() - 1] == last);
        }
        if resolved(raws) is Some {
            assert forall|i: int| 0 <= i < raws.len() && (#[trigger] raws[i]).len() > 0 implies names_entry(
                raws[i],
            ) by {
                if i < raws.len() - 1 {
                    assert(raws[i] == head[i]);
                }
            }
            if last.len() > 0 {
                assert(filled(raws) =~= filled(head).push(last));
                assert(decoded(filled(raws)) =~= decoded(filled(head)).push(percent_decoded(last)->0));
            }
        }
    }
}

/// A path that does not end with `/` asks for a file exactly where every segment of it
/// that is not empty decodes to the name of an entry: for the file below these names, in
/// their order and however many there are. One that begins and ends with `/` asks for the
/// directory in the same way.
pub proof fn law_paths_resolve_segment_by_segment(path: Seq<char>)
    requires
        !path.contains('?'),
    ensures
        ({
            let raws = split(path, '/');
            let good = forall|i: int|
                0 <= i < raws.len() && (#[trigger] raws[i]).len() > 0 ==> names_entry(raws[i]);
            let rel = Some(join(decoded(filled(raws)), '/'));
            &&& static_path(path) == if path.len() > 0 && path.last() != '/' && good {
                rel
            } else {
                None
            }
            &&& directory_path(path) == if path.len() > 0 && path[0] == '/' && path.last() == '/' && good {
                rel
            } else {
                None
            }
        }),
{
    lemma_split_first(path, Seq::empty(), '?');
    lemma_resolved_all(split(path, '/'));
}

/// A plain path below the root asks for exactly that file, and with a slash behind it for
/// exactly that directory, whatever the number of its segments.
pub proof fn law_plain_paths_resolve_to_themselves(p: Seq<char>)
    requires
        !p.contains('?'),
        !p.contains('%'),
        forall|i: int| 0 <= i < split(p, '/').len() ==> is_entry(#[trigger] split(p, '/')[i]),
    ensures
        static_path(seq!['/'] + p) == Some(p),
        directory_path(seq!['/'] + p.push('/')) == Some(p),
{
    let file = seq!['/'] + p;
    let dir = seq!['/'] + p.push('/');
    lemma_plain_ends(p);
    lemma_plain_segments(p, file);
    lemma_plain_segments(p, dir);
    assert(file.last() == p.last());
    assert(!file.contains('?') && !dir.contains('?')) by {
        if file.contains('?') {
            let k = choose|k: int| 0 <= k < file.len() && file[k] == '?';
            assert(p[k - 1] == '?');
        }
        if dir.contains('?') {
            let k = choose|k: int| 0 <= k < dir.len() && dir[k] == '?';
            assert(p[k - 1] == '?');
        }
    }
    law_paths_resolve_segment_by_segment(file);
    law_paths_resolve_segment_by_segment(dir);
}

proof fn lemma_plain_ends(p: Seq<char>)
    requires
        forall|i: int| 0 <= i < split(p, '/').len() ==> is_entry(#[trigger] split(p, '/')[i]),
    ensures
        p.len() > 0,
        p.last() != '/',
{
    lemma_split_nonempty(p, '/');
    let raws = split(p, '/');
    assert(is_entry(raws[0]));
    assert(is_entry(raws[raws.len() - 1]));
}

proof fn lemma_plain_segments(p: Seq<char>, path: Seq<char>)
    requires
        !p.contains('%'),
        forall|i: int| 0 <= i < split(p, '/').len() ==> is_entry(#[trigger] split(p, '/')[i]),
        path == seq!['/'] + p || path == seq!['/'] + p.push('/'),
    ensures
        join(decoded(filled(split(path, '/'))), '/') == p,
        forall|i: int|
            0 <= i < split(path, '/').len() && (#[trigger] split(path, '/')[i]).len() > 0 ==> names_entry(
                split(path, '/')[i],
            ),
{
    let raws = split(p, '/');
    let none = Seq::<char>::empty();
    lemma_split_nonempty(p, '/');
    lemma_join_split(p, '/');
    assert forall|i: int| 0 <= i < raws.len() implies percent_decoded(#[trigger] raws[i]) == Some(raws[i]) by {
        lemma_join_holds(raws, '/', i, '%');
        law_unescaped_segments_decode_to_themselves(raws[i]);
    }
    lemma_all_filled(raws);
    assert(decoded(raws) =~= raws);
    crate::redirect::lemma_split_lead(p, '/');
    crate::redirect::lemma_split_lead(p.push('/'), '/');
    assert(p.push('/').drop_last() =~= p);
    assert(split(p.push('/'), '/') == raws.push(none));
    lemma_filled_between(raws);
    let all = split(path, '/');
    assert forall|i: int| 0 <= i < all.len() && (#[trigger] all[i]).len() > 0 implies names_entry(all[i]) by {
        assert(all[i] == raws[i - 1]);
    }
}

proof fn lemma_all_filled(raws: Seq<Seq<char>>)
    requires
        forall|i: int| 0 <= i < raws.len() ==> is_entry(#[trigger] raws[i]),
    ensures
        filled(raws) == raws,
    decreases raws.len(),
{
    reveal(Seq::filter);
    if raws.len() > 0 {
        let head = raws.drop_last();
        assert forall|i: int| 0 <= i < head.len() implies is_entry(#[trigger] head[i]) by {
            assert(head[i] == raws[i]);
        }
        lemma_all_filled(head);
        assert(is_entry(raws[raws.len() - 1]));
        assert(head.push(raws.last()) =~= raws);
    }
}

proof fn lemma_filled_push(raws: Seq<Seq<char>>, raw: Seq<char>)
    ensures
        filled(raws.push(raw)) == if raw.len() > 0 {
            filled(raws).push(raw)
        } else {
            filled(raws)
        },
{
    reveal(Seq::filter);
    assert(raws.push(raw).drop_last() =~= raws);
}

proof fn lemma_filled_between(raws: Seq<Seq<char>>)
    ensures
        filled(seq![Seq::<char>::empty()] + raws) == filled(raws),
        filled(seq![Seq::<char>::empty()] + raws.push(Seq::empty())) == filled(raws),
    decreases raws.len(),
{
    let none = Seq::<char>::empty();
    let led = seq![none] + raws;
    if raws.len() == 0 {
        lemma_filled_push(raws, none);
        assert(led =~= raws.push(none));
    } else {
        let head = raws.drop_last();
        lemma_filled_between(head);
        lemma_filled_push(head, raws.last());
        lemma_filled_push(seq![none] + head, raws.last());
        assert(led =~= (seq![none] + head).push(raws.last()));
        assert(raws =~= head.push(raws.last()));
    }
    lemma_filled_push(led, none);
    assert(seq![none] + raws.push(none) =~= led.push(none));
}

} // verus!
