//! Laws of [`headers`](crate::headers) and [`error`](crate::error).

use vstd::prelude::*;
use vstd::utf8::{is_ascii_chars, is_ascii_chars_encode_utf8};

use crate::error::{error_text, fcgi_error_text, ProxyError};
use crate::fcgi_codec::FcgiError;
use crate::headers::{
    appended, first_text, lemma_appended, lemma_group_index, lemma_group_index_is, lemma_removed,
    lemma_token, lemma_token_chars, removed, token_byte, unique_names, valid_name, valid_value,
    values_for, values_of, visible,
};
use crate::text::{decimal, lower};

verus! {

/// The characters that a header name is made of: letters, digits, and the fifteen marks
/// that the protocol allows.
pub open spec fn name_char(c: char) -> bool {
    ||| 'a' <= c <= 'z'
    ||| 'A' <= c <= 'Z'
    ||| '0' <= c <= '9'
    ||| c == '!' || c == '#' || c == '$' || c == '%' || c == '&' || c == '\'' || c == '*' || c == '+'
        || c == '-' || c == '.' || c == '^' || c == '_' || c == '`' || c == '|' || c == '~'
}

/// A header name is one or more such characters, and not more than 65535.
pub proof fn law_header_names(name: Seq<char>)
    ensures
        valid_name(name) <==> 0 < name.len() <= 65535 && forall|i: int|
            0 <= i < name.len() ==> name_char(#[trigger] name[i]),
{
    if valid_name(name) {
        lemma_token_chars(name);
        assert(is_ascii_chars(name));
        is_ascii_chars_encode_utf8(name);
        assert forall|i: int| 0 <= i < name.len() implies name_char(#[trigger] name[i]) by {
            assert(token_byte(name[i] as u8));
        }
    }
    if 0 < name.len() <= 65535 && forall|i: int| 0 <= i < name.len() ==> name_char(#[trigger] name[i]) {
        assert forall|i: int| 0 <= i < name.len() implies ' ' <= (#[trigger] name[i]) <= '~' && token_byte(
            name[i] as u8,
        ) by {
            assert(name_char(name[i]));
        }
        lemma_token(name);
    }
}

/// A header value is any bytes but control characters, of which the tab alone is allowed;
/// it is readable as text where they are all ASCII.
pub proof fn law_header_values(value: Seq<u8>, b: u8)
    ensures
        valid_value(Seq::empty()),
        visible(Seq::empty()),
        valid_value(value.push(b)) <==> valid_value(value) && (b == 9 || 32 <= b <= 126 || b >= 128),
        visible(value.push(b)) <==> visible(value) && (b == 9 || 32 <= b <= 126),
{
    let grown = value.push(b);
    assert(forall|i: int| 0 <= i < value.len() ==> grown[i] == value[i]);
    assert(grown[value.len() as int] == b);
    if valid_value(grown) {
        assert forall|i: int| 0 <= i < value.len() implies ((#[trigger] value[i]) >= 0x20 && value[i]
            != 0x7f) || value[i] == 0x09 by {
            assert(grown[i] == value[i]);
        }
    }
    if visible(grown) {
        assert forall|i: int| 0 <= i < value.len() implies 0x20 <= (#[trigger] value[i]) <= 0x7e || value[i]
            == 0x09 by {
            assert(grown[i] == value[i]);
        }
    }
}

/// A header is found by its name in any case, and only by that: its values are those that
/// stand under it.
pub proof fn law_headers_are_found(
    groups: Seq<(Seq<char>, Seq<Seq<u8>>)>,
    i: int,
    name: Seq<char>,
)
    requires
        unique_names(groups),
        0 <= i < groups.len(),
        valid_name(name),
    ensures
        values_of(groups, groups[i].0) == groups[i].1,
        groups[i].0 == lower(name) ==> values_for(groups, name) == groups[i].1,
        (forall|j: int| 0 <= j < groups.len() ==> (#[trigger] groups[j]).0 != lower(name))
            ==> values_for(groups, name).len() == 0,
{
    lemma_group_index_is(groups, i);
    lemma_group_index(groups, lower(name));
}

/// The text of a header is its first value, where that is readable.
pub proof fn law_header_texts(groups: Seq<(Seq<char>, Seq<Seq<u8>>)>, name: Seq<char>)
    ensures
        values_of(groups, name).len() == 0 ==> first_text(groups, name) is None,
        values_of(groups, name).len() > 0 && !visible(values_of(groups, name)[0]) ==> first_text(
            groups,
            name,
        ) is None,
        values_of(groups, name).len() > 0 && visible(values_of(groups, name)[0]) ==> {
            let text = first_text(groups, name);
            &&& text is Some
            &&& text->0.len() == values_of(groups, name)[0].len()
            &&& forall|i: int|
                0 <= i < text->0.len() ==> (#[trigger] text->0[i]) as int == values_of(groups, name)[0][i]
        },
{
}

/// Appending adds a value behind those of its name and touches no other; removing takes a
/// name away with all its values and touches no other.
pub proof fn law_headers_change_one_name(
    groups: Seq<(Seq<char>, Seq<Seq<u8>>)>,
    name: Seq<char>,
    value: Seq<u8>,
    other: Seq<char>,
)
    requires
        unique_names(groups),
        other != name,
    ensures
        values_of(appended(groups, name, value), name) == values_of(groups, name).push(value),
        values_of(appended(groups, name, value), other) == values_of(groups, other),
        values_of(removed(groups, name), name).len() == 0,
        values_of(removed(groups, name), other) == values_of(groups, other),
        unique_names(appended(groups, name, value)) && unique_names(removed(groups, name)),
{
    lemma_appended(groups, name, value, other);
    lemma_removed(groups, name, other);
}

/// The text of an error names what it is about and ends with its cause.
pub proof fn law_error_texts(e: ProxyError)
    ensures
        match e {
            ProxyError::BackendResolver { host, source } => error_text(e) == "no backend for "@ + host@
                + ": "@ + source@,
            ProxyError::BackendConnect { backend, source } => error_text(e)
                == "cannot connect to backend "@ + backend@ + ": "@ + source@,
            ProxyError::BackendProtocol { source } => source@.is_suffix_of(error_text(e))
                && "backend protocol"@.is_prefix_of(error_text(e)),
            ProxyError::Fcgi { source } => fcgi_error_text(source).is_suffix_of(error_text(e)),
            ProxyError::Setup { source } => source@.is_suffix_of(error_text(e)),
        },
{
    let text = error_text(e);
    match e {
        ProxyError::BackendProtocol { source } => {
            reveal_strlit("backend protocol error: ");
            reveal_strlit("backend protocol");
            assert(source@ =~= text.subrange(text.len() - source@.len(), text.len() as int));
            assert("backend protocol"@ =~= text.subrange(0, 16));
        },
        ProxyError::Fcgi { source } => {
            let cause = fcgi_error_text(source);
            assert(cause =~= text.subrange(text.len() - cause.len(), text.len() as int));
        },
        ProxyError::Setup { source } => {
            assert(source@ =~= text.subrange(text.len() - source@.len(), text.len() as int));
        },
        _ => {},
    }
}

/// The text of a codec error ends with the number that was wrong.
pub proof fn law_codec_error_texts(v: u8, id: u16)
    ensures
        decimal(v as nat).is_suffix_of(fcgi_error_text(FcgiError::UnsupportedVersion(v))),
        decimal(v as nat).is_suffix_of(fcgi_error_text(FcgiError::UnknownRecordType(v))),
        decimal(id as nat).is_suffix_of(fcgi_error_text(FcgiError::UnexpectedRequestId(id))),
{
    let a = fcgi_error_text(FcgiError::UnsupportedVersion(v));
    let b = fcgi_error_text(FcgiError::UnknownRecordType(v));
    let c = fcgi_error_text(FcgiError::UnexpectedRequestId(id));
    let n = decimal(v as nat);
    let m = decimal(id as nat);
    assert(n =~= a.subrange(a.len() - n.len(), a.len() as int));
    assert(n =~= b.subrange(b.len() - n.len(), b.len() as int));
    assert(m =~= c.subrange(c.len() - m.len(), c.len() as int));
}

} // verus!
