//! HTTP header fields, held in the `http` crate's `HeaderMap`.
//!
//! A map is modelled as its groups: one per header name, in iteration order, each
//! with the values stored under that name, first value first. Names are lower case.

use vstd::prelude::*;
use vstd::utf8::{
    encode_scalar, encode_utf8, has_width_1_encoding, is_ascii_chars, is_ascii_chars_encode_utf8,
    leading_byte_width_1, leading_byte_width_2, leading_byte_width_3, leading_byte_width_4,
};

use crate::text::{lower, lower_char};

verus! {

/// `http::HeaderMap`, a multimap from header names to values.
#[verifier::external_type_specification]
#[verifier::external_body]
#[verifier::reject_recursive_types(T)]
pub struct ExHeaderMap<T>(http::HeaderMap<T>);

/// `http::HeaderValue`, one header value.
#[verifier::external_type_specification]
#[verifier::external_body]
pub struct ExHeaderValue(http::HeaderValue);

/// What a header map holds: its names in iteration order, each with its values.
pub uninterp spec fn header_groups(map: http::HeaderMap<http::HeaderValue>) -> Seq<(Seq<char>, Seq<Seq<u8>>)>;

/// Where the group called `name` stands.
pub open spec fn group_index(groups: Seq<(Seq<char>, Seq<Seq<u8>>)>, name: Seq<char>) -> Option<int>
    decreases groups.len(),
{
    if groups.len() == 0 {
        None
    } else if groups.last().0 == name {
        Some(groups.len() - 1)
    } else {
        group_index(groups.drop_last(), name)
    }
}

/// The values stored under `name`.
pub open spec fn values_of(groups: Seq<(Seq<char>, Seq<Seq<u8>>)>, name: Seq<char>) -> Seq<Seq<u8>> {
    match group_index(groups, name) {
        Some(i) => groups[i].1,
        None => Seq::empty(),
    }
}

/// `groups` with `value` stored last under `name`, in a group of its own at the end
/// where there was none.
pub open spec fn appended(
    groups: Seq<(Seq<char>, Seq<Seq<u8>>)>,
    name: Seq<char>,
    value: Seq<u8>,
) -> Seq<(Seq<char>, Seq<Seq<u8>>)> {
    match group_index(groups, name) {
        Some(i) => groups.update(i, (name, groups[i].1.push(value))),
        None => groups.push((name, seq![value])),
    }
}

/// `groups` without the one called `name`; the last group takes its place.
pub open spec fn removed(groups: Seq<(Seq<char>, Seq<Seq<u8>>)>, name: Seq<char>) -> Seq<
    (Seq<char>, Seq<Seq<u8>>),
> {
    match group_index(groups, name) {
        Some(i) => if i == groups.len() - 1 {
            groups.drop_last()
        } else {
            groups.drop_last().update(i, groups.last())
        },
        None => groups,
    }
}

/// No name heads two groups.
pub open spec fn unique_names(groups: Seq<(Seq<char>, Seq<Seq<u8>>)>) -> bool {
    forall|i: int, j: int|
        0 <= i < j < groups.len() ==> (#[trigger] groups[i]).0 != (#[trigger] groups[j]).0
}

/// The name and value pairs of one group.
pub open spec fn group_fields(group: (Seq<char>, Seq<Seq<u8>>)) -> Seq<(Seq<char>, Seq<u8>)> {
    group.1.map_values(|v: Seq<u8>| (group.0, v))
}

/// Every name and value pair, in iteration order.
pub open spec fn fields_of(groups: Seq<(Seq<char>, Seq<Seq<u8>>)>) -> Seq<(Seq<char>, Seq<u8>)>
    decreases groups.len(),
{
    if groups.len() == 0 {
        Seq::empty()
    } else {
        fields_of(groups.drop_last()) + group_fields(groups.last())
    }
}

/// The views of owned name and value pairs.
pub open spec fn field_views(v: Seq<(String, Vec<u8>)>) -> Seq<(Seq<char>, Seq<u8>)> {
    v.map_values(|f: (String, Vec<u8>)| (f.0@, f.1@))
}

/// A byte that may stand in a header name.
pub open spec fn token_byte(b: u8) -> bool {
    ||| 0x30 <= b <= 0x39
    ||| 0x41 <= b <= 0x5a
    ||| 0x61 <= b <= 0x7a
    ||| b == 0x21
    ||| 0x23 <= b <= 0x27
    ||| b == 0x2a
    ||| b == 0x2b
    ||| b == 0x2d
    ||| b == 0x2e
    ||| b == 0x5e
    ||| b == 0x5f
    ||| b == 0x60
    ||| b == 0x7c
    ||| b == 0x7e
}

/// A header name: at least one and at most 65535 bytes, every one a token byte.
pub open spec fn valid_name(name: Seq<char>) -> bool {
    let bytes = encode_utf8(name);
    &&& 0 < bytes.len() <= 0xffff
    &&& forall|i: int| 0 <= i < bytes.len() ==> token_byte(#[trigger] bytes[i])
}

/// A byte of a long name in a lookup: lowered, and NUL where it may not stand in a name.
pub open spec fn looked_up_byte(b: u8) -> char {
    if 0x41 <= b <= 0x5a {
        ((b + 32) as u8) as char
    } else if token_byte(b) {
        b as char
    } else {
        '\0'
    }
}

/// The name that a header map looks for when it is asked for `name`: the lowered name.
/// What is no header name is looked for only where it has more than 64 bytes, and then
/// with NUL in the place of every byte that may not stand in a name.
pub open spec fn lookup_key(name: Seq<char>) -> Option<Seq<char>> {
    let bytes = encode_utf8(name);
    if valid_name(name) {
        Some(lower(name))
    } else if 64 < bytes.len() <= 0xffff {
        Some(bytes.map_values(|b: u8| looked_up_byte(b)))
    } else {
        None
    }
}

/// The values that a lookup of `name` finds.
pub open spec fn values_for(groups: Seq<(Seq<char>, Seq<Seq<u8>>)>, name: Seq<char>) -> Seq<
    Seq<u8>,
> {
    match lookup_key(name) {
        Some(key) => values_of(groups, key),
        None => Seq::empty(),
    }
}

/// `groups` without the one that a lookup of `name` finds.
pub open spec fn removed_for(groups: Seq<(Seq<char>, Seq<Seq<u8>>)>, name: Seq<char>) -> Seq<
    (Seq<char>, Seq<Seq<u8>>),
> {
    match lookup_key(name) {
        Some(key) => removed(groups, key),
        None => groups,
    }
}

/// A header value: no control byte but the tab.
pub open spec fn valid_value(value: Seq<u8>) -> bool {
    forall|i: int|
        0 <= i < value.len() ==> ((#[trigger] value[i]) >= 0x20 && value[i] != 0x7f) || value[i]
            == 0x09
}

/// A value of visible ASCII characters, spaces and tabs.
pub open spec fn visible(value: Seq<u8>) -> bool {
    forall|i: int|
        0 <= i < value.len() ==> 0x20 <= (#[trigger] value[i]) <= 0x7e || value[i] == 0x09
}

/// The characters of ASCII bytes.
pub open spec fn ascii_text(bytes: Seq<u8>) -> Seq<char> {
    bytes.map_values(|b: u8| b as char)
}

/// The first value under `name`, if there is one and it is visible.
pub open spec fn first_text(groups: Seq<(Seq<char>, Seq<Seq<u8>>)>, name: Seq<char>) -> Option<
    Seq<char>,
> {
    let values = values_of(groups, name);
    if values.len() > 0 && visible(values[0]) {
        Some(ascii_text(values[0]))
    } else {
        None
    }
}

/// Up to this many names a header map takes every field.
pub const SAFE_NAMES: usize = 6553;

/// `http::HeaderMap::new` gives a map that holds nothing.
#[verifier::external_body]
pub(crate) fn header_map_new() -> (map: http::HeaderMap<http::HeaderValue>)
    ensures
        header_groups(map) == Seq::<(Seq<char>, Seq<Seq<u8>>)>::empty(),
{
    http::HeaderMap::new()
}

/// `http::HeaderMap::iter` hands out every field: name by name, and under each name
/// value by value.
#[verifier::external_body]
pub(crate) fn header_fields(map: &http::HeaderMap<http::HeaderValue>) -> (fields: Vec<
    (String, Vec<u8>),
>)
    ensures
        field_views(fields@) == fields_of(header_groups(*map)),
{
    map.iter().map(|(n, v)| (n.as_str().to_owned(), v.as_bytes().to_vec())).collect()
}

/// `http::HeaderMap::get` finds the first value under a name, whatever the case in
/// which the name is written. It reads the name by the table of bytes that may stand in
/// one: of a name of up to 64 bytes that holds any other byte it finds nothing, and in a
/// longer one it takes such a byte for NUL.
#[verifier::external_body]
pub(crate) fn header_get(map: &http::HeaderMap<http::HeaderValue>, name: &str) -> (value: Option<
    Vec<u8>,
>)
    ensures
        value is Some <==> values_for(header_groups(*map), name@).len() > 0,
        value is Some ==> value->0@ == values_for(header_groups(*map), name@)[0],
{
    map.get(name).map(|v| v.as_bytes().to_vec())
}

/// `http::HeaderMap::try_append` stores a value after the others under its name, the
/// name and the value made by `HeaderName::from_bytes` and `HeaderValue::from_bytes`,
/// which take valid ones only and lower the name. It gives up, and changes nothing,
/// only when the map holds too many names.
#[verifier::external_body]
pub(crate) fn header_append(
    map: &mut http::HeaderMap<http::HeaderValue>,
    name: &str,
    value: &[u8],
) -> (done: bool)
    ensures
        done ==> valid_name(name@) && valid_value(value@),
        done ==> header_groups(*final(map)) == appended(
            header_groups(*old(map)),
            lower(name@),
            value@,
        ),
        !done ==> header_groups(*final(map)) == header_groups(*old(map)),
        valid_name(name@) && valid_value(value@) && header_groups(*old(map)).len() <= SAFE_NAMES
            ==> done,
{
    match (http::HeaderName::from_bytes(name.as_bytes()), http::HeaderValue::from_bytes(value)) {
        (Ok(n), Ok(v)) => map.try_append(n, v).is_ok(),
        _ => false,
    }
}

/// `http::HeaderMap::remove` drops a name with all its values, whatever the case in
/// which the name is written; the last name takes the freed place. It looks the name up
/// as `get` does.
#[verifier::external_body]
pub(crate) fn header_remove(map: &mut http::HeaderMap<http::HeaderValue>, name: &str)
    ensures
        header_groups(*final(map)) == removed_for(header_groups(*old(map)), name@),
{
    map.remove(name);
}

/// Characters of header names make a header name.
pub proof fn lemma_token(name: Seq<char>)
    requires
        0 < name.len() <= 0xffff,
        forall|i: int|
            0 <= i < name.len() ==> ' ' <= (#[trigger] name[i]) <= '~' && token_byte(name[i] as u8),
    ensures
        valid_name(name),
{
    assert(is_ascii_chars(name));
    is_ascii_chars_encode_utf8(name);
    assert forall|i: int| 0 <= i < encode_utf8(name).len() implies token_byte(
        #[trigger] encode_utf8(name)[i],
    ) by {
        assert(token_byte(name[i] as u8));
    }
}

/// A header name without capitals is looked up as it is.
pub proof fn lemma_lookup(name: Seq<char>)
    requires
        0 < name.len() <= 0xffff,
        forall|i: int|
            0 <= i < name.len() ==> ' ' <= (#[trigger] name[i]) <= '~' && token_byte(name[i] as u8)
                && !('A' <= name[i] <= 'Z'),
    ensures
        valid_name(name),
        lower(name) == name,
        lookup_key(name) == Some(name),
{
    lemma_token(name);
    assert(lower(name) =~= name);
}

/// A character whose encoding begins with a byte of header names is that byte.
proof fn lemma_token_char(c: char)
    requires
        token_byte(encode_scalar(c as u32)[0]),
    ensures
        ' ' <= c <= '~',
        token_byte(c as u8),
{
    let s = c as u32;
    assert(leading_byte_width_2(s) >= 0xc0 && leading_byte_width_3(s) >= 0xe0
        && leading_byte_width_4(s) >= 0xf0) by (bit_vector);
    assert(has_width_1_encoding(s) ==> leading_byte_width_1(s) == s) by (bit_vector);
}

/// A text whose encoding holds only bytes of header names has only such characters.
pub proof fn lemma_token_chars(name: Seq<char>)
    requires
        forall|i: int|
            0 <= i < encode_utf8(name).len() ==> token_byte(#[trigger] encode_utf8(name)[i]),
    ensures
        forall|i: int|
            0 <= i < name.len() ==> ' ' <= (#[trigger] name[i]) <= '~' && token_byte(name[i] as u8),
    decreases name.len(),
{
    if name.len() > 0 {
        let rest = name.drop_first();
        let head = encode_scalar(name[0] as u32);
        let bytes = encode_utf8(name);
        assert(bytes[0] == head[0]);
        lemma_token_char(name[0]);
        assert forall|i: int| 0 <= i < encode_utf8(rest).len() implies token_byte(
            #[trigger] encode_utf8(rest)[i],
        ) by {
            assert(bytes[head.len() + i] == encode_utf8(rest)[i]);
        }
        lemma_token_chars(rest);
        assert forall|i: int| 0 <= i < name.len() implies ' ' <= (#[trigger] name[i]) <= '~'
            && token_byte(name[i] as u8) by {
            if i > 0 {
                assert(name[i] == rest[i - 1]);
            }
        }
    }
}

/// What differs from a header name in case only is a header name.
pub proof fn lemma_same_name(name: Seq<char>, other: Seq<char>)
    requires
        valid_name(name),
        lower(name) == lower(other),
    ensures
        valid_name(other),
{
    lemma_token_chars(name);
    assert(is_ascii_chars(name));
    is_ascii_chars_encode_utf8(name);
    assert(name.len() == lower(name).len() && other.len() == lower(other).len());
    assert forall|i: int| 0 <= i < other.len() implies ' ' <= (#[trigger] other[i]) <= '~'
        && token_byte(other[i] as u8) by {
        assert(lower(name)[i] == lower_char(name[i]));
        assert(lower(other)[i] == lower_char(other[i]));
        assert(token_byte(name[i] as u8));
    }
    lemma_token(other);
}

/// A name that is looked up although it is no header name is none in any case.
pub proof fn lemma_odd_key(name: Seq<char>, odd: Seq<char>)
    requires
        valid_name(name),
        !valid_name(odd),
    ensures
        lookup_key(odd) != Some(lower(name)),
{
    if lookup_key(odd) is Some {
        let bytes = encode_utf8(odd);
        let key = lookup_key(odd)->0;
        let k = choose|k: int| 0 <= k < bytes.len() && !token_byte(#[trigger] bytes[k]);
        assert(key[k] == looked_up_byte(bytes[k]));
        assert(key[k] == '\0');
        if key == lower(name) {
            assert(key.len() == bytes.len() && lower(name).len() == name.len());
            lemma_token_chars(name);
            assert(lower(name)[k] == lower_char(name[k]));
            assert(' ' <= name[k] <= '~');
        }
    }
}

/// The index finds the last group of that name, and nothing where there is none.
pub proof fn lemma_group_index(groups: Seq<(Seq<char>, Seq<Seq<u8>>)>, name: Seq<char>)
    ensures
        match group_index(groups, name) {
            Some(i) => 0 <= i < groups.len() && groups[i].0 == name,
            None => forall|i: int| 0 <= i < groups.len() ==> (#[trigger] groups[i]).0 != name,
        },
    decreases groups.len(),
{
    if groups.len() > 0 && groups.last().0 != name {
        lemma_group_index(groups.drop_last(), name);
        if group_index(groups.drop_last(), name) is None {
            assert forall|i: int| 0 <= i < groups.len() implies (#[trigger] groups[i]).0 != name by {
                if i < groups.len() - 1 {
                    assert(groups[i] == groups.drop_last()[i]);
                }
            }
        }
    }
}

/// Under distinct names, the index of a name is the one place where it stands.
pub proof fn lemma_group_index_is(groups: Seq<(Seq<char>, Seq<Seq<u8>>)>, i: int)
    requires
        unique_names(groups),
        0 <= i < groups.len(),
    ensures
        group_index(groups, groups[i].0) == Some(i),
{
    lemma_group_index(groups, groups[i].0);
}

/// Appending keeps names distinct, and changes the values of its own name only.
pub proof fn lemma_appended(
    groups: Seq<(Seq<char>, Seq<Seq<u8>>)>,
    name: Seq<char>,
    value: Seq<u8>,
    other: Seq<char>,
)
    requires
        unique_names(groups),
    ensures
        unique_names(appended(groups, name, value)),
        values_of(appended(groups, name, value), name) == values_of(groups, name).push(value),
        other != name ==> values_of(appended(groups, name, value), other) == values_of(
            groups,
            other,
        ),
{
    let now = appended(groups, name, value);
    lemma_group_index(groups, name);
    lemma_group_index(groups, other);
    assert(Seq::<Seq<u8>>::empty().push(value) =~= seq![value]);
    match group_index(groups, name) {
        Some(i) => {
            assert(unique_names(now)) by {
                assert forall|a: int, b: int| 0 <= a < b < now.len() implies (#[trigger] now[a]).0
                    != (#[trigger] now[b]).0 by {
                    assert(groups[a].0 != groups[b].0);
                }
            }
            lemma_group_index_is(now, i);
        },
        None => {
            assert(now.last().0 == name);
            lemma_group_index_is(now, groups.len() as int);
        },
    }
    if other != name {
        lemma_group_index(now, other);
        match group_index(groups, other) {
            Some(j) => {
                lemma_group_index_is(groups, j);
                assert(now[j] == groups[j]);
                lemma_group_index_is(now, j);
            },
            None => {
                if let Some(j) = group_index(now, other) {
                    assert(j < groups.len());
                    assert(groups[j].0 == other);
                }
            },
        }
    }
}

/// Removing keeps names distinct, leaves nothing under its own name and everything
/// under the others.
pub proof fn lemma_removed(
    groups: Seq<(Seq<char>, Seq<Seq<u8>>)>,
    name: Seq<char>,
    other: Seq<char>,
)
    requires
        unique_names(groups),
    ensures
        unique_names(removed(groups, name)),
        values_of(removed(groups, name), name) == Seq::<Seq<u8>>::empty(),
        other != name ==> values_of(removed(groups, name), other) == values_of(groups, other),
{
    let now = removed(groups, name);
    lemma_group_index(groups, name);
    lemma_group_index(now, name);
    lemma_group_index(now, other);
    lemma_group_index(groups, other);
    match group_index(groups, name) {
        Some(i) => {
            let last = groups.len() - 1;
            assert forall|a: int| 0 <= a < now.len() implies (#[trigger] now[a]) == groups[if a == i {
                last
            } else {
                a
            }] by {}
            assert forall|a: int, b: int| 0 <= a < b < now.len() implies (#[trigger] now[a]).0 != (
            #[trigger] now[b]).0 by {
                let x = if a == i {
                    last
                } else {
                    a
                };
                let y = if b == i {
                    last
                } else {
                    b
                };
                assert(groups[x].0 != groups[y].0);
            }
            if let Some(j) = group_index(now, name) {
                let x = if j == i {
                    last
                } else {
                    j
                };
                assert(groups[x].0 == groups[i].0);
            }
            if other != name {
                match group_index(groups, other) {
                    Some(j) => {
                        let x = if j == last {
                            i
                        } else {
                            j
                        };
                        assert(now[x] == groups[j]);
                        lemma_group_index_is(now, x);
                    },
                    None => {
                        if let Some(j) = group_index(now, other) {
                            let x = if j == i {
                                last
                            } else {
                                j
                            };
                            assert(groups[x].0 == other);
                        }
                    },
                }
            }
        },
        None => {},
    }
}

/// Whether `value` is made of visible ASCII characters, spaces and tabs.
pub fn is_visible(value: &[u8]) -> (r: bool)
    ensures
        r == visible(value@),
{
    let mut i: usize = 0;
    while i < value.len()
        invariant
            i <= value@.len(),
            forall|j: int|
                0 <= j < i ==> 0x20 <= (#[trigger] value@[j]) <= 0x7e || value@[j] == 0x09,
        decreases value@.len() - i,
    {
        let b: u8 = value[i];
        if !((0x20 <= b && b <= 0x7e) || b == 0x09) {
            return false;
        }
        i = i + 1;
    }
    true
}

/// Whether `name` is a header name.
pub fn is_header_name(name: &str) -> (r: bool)
    ensures
        r == valid_name(name@),
{
    let bytes: &[u8] = name.as_bytes();
    if bytes.len() == 0 || bytes.len() > 0xffff {
        return false;
    }
    let mut i: usize = 0;
    while i < bytes.len()
        invariant
            i <= bytes@.len(),
            bytes@ == encode_utf8(name@),
            forall|j: int| 0 <= j < i ==> token_byte(#[trigger] bytes@[j]),
        decreases bytes@.len() - i,
    {
        let b: u8 = bytes[i];
        let token: bool = (0x30 <= b && b <= 0x39) || (0x41 <= b && b <= 0x5a) || (0x61 <= b && b
            <= 0x7a) || b == 0x21 || (0x23 <= b && b <= 0x27) || b == 0x2a || b == 0x2b || b == 0x2d
            || b == 0x2e || b == 0x5e || b == 0x5f || b == 0x60 || b == 0x7c || b == 0x7e;
        if !token {
            assert(!token_byte(bytes@[i as int]));
            return false;
        }
        i = i + 1;
    }
    true
}

/// Whether `value` is a header value.
pub fn is_header_value(value: &[u8]) -> (r: bool)
    ensures
        r == valid_value(value@),
{
    let mut i: usize = 0;
    while i < value.len()
        invariant
            i <= value@.len(),
            forall|j: int|
                0 <= j < i ==> ((#[trigger] value@[j]) >= 0x20 && value@[j] != 0x7f) || value@[j]
                    == 0x09,
        decreases value@.len() - i,
    {
        let b: u8 = value[i];
        if !((b >= 0x20 && b != 0x7f) || b == 0x09) {
            return false;
        }
        i = i + 1;
    }
    true
}

/// The text of visible ASCII bytes.
pub fn ascii_string(bytes: &Vec<u8>) -> (r: String)
    requires
        visible(bytes@),
    ensures
        r@ == ascii_text(bytes@),
{
    let mut r: String = String::new();
    let mut i: usize = 0;
    while i < bytes.len()
        invariant
            i <= bytes@.len(),
            visible(bytes@),
            r@ == ascii_text(bytes@).take(i as int),
        decreases bytes@.len() - i,
    {
        r.push(bytes[i] as char);
        i = i + 1;
        assert(r@ =~= ascii_text(bytes@).take(i as int));
    }
    assert(ascii_text(bytes@).take(i as int) =~= ascii_text(bytes@));
    r
}

/// The text of the first value that a lookup of `name` finds, if there is one and it is
/// visible ASCII.
pub fn header_text(map: &http::HeaderMap<http::HeaderValue>, name: &str) -> (r: Option<String>)
    ensures
        r is Some <==> lookup_key(name@) is Some && first_text(
            header_groups(*map),
            lookup_key(name@)->0,
        ) is Some,
        r is Some ==> r->0@ == first_text(header_groups(*map), lookup_key(name@)->0)->0,
{
    match header_get(map, name) {
        Some(value) => if is_visible(value.as_slice()) {
            Some(ascii_string(&value))
        } else {
            None
        },
        None => None,
    }
}

} // verus!
