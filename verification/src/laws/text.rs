//! Laws of [`text`](crate::text).

use vstd::prelude::*;

use crate::text::{
    decimal, has_part, join, joined, lemma_join_split, lemma_split_free, lemma_split_nonempty,
    lower, replaced, split, trimmed, trimmed_end, trimmed_start, white_space,
};

verus! {

/// A split leaves no separator in its pieces, of which there is one more than there are
/// separators, and loses nothing: joined again they are the text.
pub proof fn law_splits_lose_nothing(s: Seq<char>, sep: char)
    ensures
        join(split(s, sep), sep) == s,
        split(s, sep).len() == 1 + s.filter(|c: char| c == sep).len(),
        forall|i: int| 0 <= i < split(s, sep).len() ==> !(#[trigger] split(s, sep)[i]).contains(sep),
    decreases s.len(),
{
    reveal(Seq::filter);
    lemma_join_split(s, sep);
    lemma_split_free(s, sep);
    if s.len() > 0 {
        lemma_split_nonempty(s.drop_last(), sep);
        law_splits_lose_nothing(s.drop_last(), sep);
    }
}

/// How long a join is.
pub open spec fn total(parts: Seq<Seq<char>>) -> nat
    decreases parts.len(),
{
    if parts.len() == 0 {
        0
    } else {
        total(parts.drop_last()) + parts.last().len()
    }
}

/// A join holds every part whole and in its place, with one separator between two of
/// them, and nothing else.
pub proof fn law_joins_hold_their_parts(parts: Seq<Seq<char>>, more: Seq<char>, sep: char)
    ensures
        parts.len() == 0 ==> join(parts, sep).len() == 0,
        parts.len() > 0 ==> join(parts, sep).len() == total(parts) + parts.len() - 1,
        join(seq![more], sep) == more,
        parts.len() > 0 ==> {
            let n = join(parts, sep).len() as int;
            &&& join(parts.push(more), sep).take(n) == join(parts, sep)
            &&& join(parts.push(more), sep)[n] == sep
            &&& join(parts.push(more), sep).skip(n + 1) == more
        },
    decreases parts.len(),
{
    let grown = parts.push(more);
    assert(grown.drop_last() =~= parts);
    if parts.len() > 0 {
        let n = join(parts, sep).len() as int;
        assert(join(grown, sep).take(n) =~= join(parts, sep));
        assert(join(grown, sep).skip(n + 1) =~= more);
        law_joins_hold_their_parts(parts.drop_last(), more, sep);
    }
}

/// Lowering turns each ASCII capital into its small letter, which stands 32 places
/// behind it, and leaves all else as it is.
pub proof fn law_lowering_changes_capitals_only(s: Seq<char>)
    ensures
        lower(s).len() == s.len(),
        forall|i: int|
            0 <= i < s.len() && ('A' <= s[i] <= 'Z') ==> (#[trigger] lower(s)[i]) as int
                == s[i] as int + 32,
        forall|i: int|
            0 <= i < s.len() && !('A' <= s[i] <= 'Z') ==> (#[trigger] lower(s)[i]) == s[i],
        lower(lower(s)) == lower(s),
{
    assert(lower(lower(s)) =~= lower(s));
}

/// The number that decimal digits stand for.
pub open spec fn number(digits: Seq<char>) -> int
    decreases digits.len(),
{
    if digits.len() == 0 {
        0
    } else {
        number(digits.drop_last()) * 10 + (digits.last() as int - '0' as int)
    }
}

/// A number written in decimal reads back as the number, and has no digit too many.
pub proof fn law_decimals_read_back(n: nat)
    ensures
        number(decimal(n)) == n,
        decimal(n).len() > 0,
        forall|i: int| 0 <= i < decimal(n).len() ==> '0' <= (#[trigger] decimal(n)[i]) <= '9',
        n > 0 ==> decimal(n)[0] != '0',
        n == 0 ==> decimal(n).len() == 1,
    decreases n,
{
    let d = decimal(n);
    if n < 10 {
        assert(d.drop_last() =~= Seq::empty());
        assert(number(d.drop_last()) == 0);
    } else {
        law_decimals_read_back(n / 10);
        assert(d.drop_last() =~= decimal(n / 10));
        assert(d[0] == decimal(n / 10)[0]);
        assert forall|i: int| 0 <= i < d.len() implies '0' <= (#[trigger] d[i]) <= '9' by {
            if i < d.len() - 1 {
                assert(d[i] == decimal(n / 10)[i]);
            }
        }
    }
}

/// Replacing a character changes every place where it stands, and no other.
pub proof fn law_replacing_changes_one_character(s: Seq<char>, from: char, to: char)
    ensures
        replaced(s, from, to).len() == s.len(),
        forall|i: int| 0 <= i < s.len() && s[i] == from ==> (#[trigger] replaced(s, from, to)[i]) == to,
        forall|i: int|
            0 <= i < s.len() && s[i] != from ==> (#[trigger] replaced(s, from, to)[i]) == s[i],
{
}

/// A relative path is put below the root, with one separator between them; an absolute
/// one stands alone.
pub proof fn law_joined_paths(root: Seq<char>, path: Seq<char>)
    ensures
        path.len() > 0 && path[0] == '/' ==> joined(root, path) == path,
        !(path.len() > 0 && path[0] == '/') ==> root.is_prefix_of(joined(root, path))
            && path.is_suffix_of(joined(root, path)),
        !(path.len() > 0 && path[0] == '/') && root.len() > 0 ==> {
            let n = joined(root, path).len() - path.len();
            &&& joined(root, path)[n - 1] == '/'
            &&& n == root.len() + if root.last() == '/' {
                0int
            } else {
                1int
            }
        },
        joined(Seq::empty(), path) == path,
{
    let whole = joined(root, path);
    if !(path.len() > 0 && path[0] == '/') {
        assert(root =~= whole.subrange(0, root.len() as int));
        assert(path =~= whole.subrange(whole.len() - path.len(), whole.len() as int));
    }
    assert(joined(Seq::empty(), path) =~= path);
}

/// A text holds a part exactly where the part stands in it between two others.
pub proof fn law_parts_stand_in_the_text(s: Seq<char>, a: Seq<char>, part: Seq<char>, b: Seq<char>)
    ensures
        has_part(a + part + b, part),
        has_part(s, part) ==> exists|i: int|
            0 <= i && i + part.len() <= s.len() && (#[trigger] s.skip(i)).take(part.len() as int)
                == part,
{
    let whole = a + part + b;
    assert(whole.subrange(a.len() as int, a.len() as int + part.len()) =~= part);
    if has_part(s, part) {
        let i = choose|i: int|
            0 <= i <= s.len() - part.len() && #[trigger] s.subrange(i, i + part.len()) == part;
        assert(s.skip(i).take(part.len() as int) =~= s.subrange(i, i + part.len()));
    }
}

/// The printable ASCII characters are no white space, but for the space; the tab, the
/// line feed and the carriage return are, and all in all twenty-five characters.
pub proof fn law_white_space(c: char)
    ensures
        '!' <= c <= '~' ==> !white_space(c),
        c == ' ' || c == '\t' || c == '\n' || c == '\r' ==> white_space(c),
        '\u{3001}' <= c ==> !white_space(c),
        '\u{a1}' <= c <= '\u{167f}' ==> !white_space(c),
        white_space(c) <==> {
            let n = c as int;
            ||| 9 <= n <= 13
            ||| n == 32 || n == 0x85 || n == 0xa0 || n == 0x1680
            ||| 0x2000 <= n <= 0x200a
            ||| n == 0x2028 || n == 0x2029 || n == 0x202f || n == 0x205f || n == 0x3000
        },
{
}

proof fn lemma_trimmed_start(s: Seq<char>)
    ensures
        trimmed_start(s).len() <= s.len(),
        trimmed_start(s) == s.skip(s.len() - trimmed_start(s).len()),
        forall|i: int|
            0 <= i < s.len() - trimmed_start(s).len() ==> white_space(#[trigger] s[i]),
        trimmed_start(s).len() > 0 ==> !white_space(trimmed_start(s)[0]),
    decreases s.len(),
{
    if s.len() > 0 && white_space(s[0]) {
        let rest = s.skip(1);
        lemma_trimmed_start(rest);
        let n = s.len() - trimmed_start(s).len();
        assert(rest.skip(n - 1) =~= s.skip(n));
        assert forall|i: int| 0 <= i < n implies white_space(#[trigger] s[i]) by {
            if i > 0 {
                assert(s[i] == rest[i - 1]);
            }
        }
    } else {
        assert(s.skip(0) =~= s);
    }
}

proof fn lemma_trimmed_end(s: Seq<char>)
    ensures
        trimmed_end(s).len() <= s.len(),
        trimmed_end(s) == s.take(trimmed_end(s).len() as int),
        forall|i: int| trimmed_end(s).len() <= i < s.len() ==> white_space(#[trigger] s[i]),
        trimmed_end(s).len() > 0 ==> !white_space(trimmed_end(s).last()),
    decreases s.len(),
{
    if s.len() > 0 && white_space(s.last()) {
        let rest = s.drop_last();
        lemma_trimmed_end(rest);
        let n = trimmed_end(s).len() as int;
        assert(rest.take(n) =~= s.take(n));
        assert forall|i: int| n <= i < s.len() implies white_space(#[trigger] s[i]) by {
            if i < s.len() - 1 {
                assert(s[i] == rest[i]);
            }
        }
    } else {
        assert(s.take(s.len() as int) =~= s);
    }
}

/// Trimming takes white space off both ends, all of it, and nothing else.
pub proof fn law_trimming_takes_white_space_off(s: Seq<char>)
    ensures
        exists|a: int, b: int|
            0 <= a <= b <= s.len() && trimmed(s) == #[trigger] s.subrange(a, b) && (forall|i: int|
                0 <= i < a || b <= i < s.len() ==> white_space(#[trigger] s[i])) && (a < b
                ==> !white_space(s[a]) && !white_space(s[b - 1])),
{
    let t = trimmed_start(s);
    lemma_trimmed_start(s);
    lemma_trimmed_end(t);
    let a = s.len() - t.len();
    let b = a + trimmed_end(t).len();
    assert(trimmed(s) =~= s.subrange(a, b));
    assert forall|i: int| 0 <= i < a || b <= i < s.len() implies white_space(#[trigger] s[i]) by {
        if i >= b {
            assert(s[i] == t[i - a]);
        }
    }
    if a < b {
        assert(s[a] == t[0]);
        assert(s[b - 1] == trimmed_end(t).last());
    }
}

} // verus!
