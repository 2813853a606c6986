//! From the records of a FastCGI backend to an HTTP response.
//!
//! The response head goes out as soon as the CGI header block is complete; what the
//! backend writes after it is relayed record by record. A failure after that point
//! cannot change the status any more and breaks the body off instead. A response that
//! cannot have a body (to `HEAD`, or with status 1xx, 204 or 304) is drained to its end
//! before it is answered, so that the script still runs to completion.

use vstd::prelude::*;
use vstd::utf8::encode_utf8;

use crate::error::{error_text, ProxyError};
use crate::fcgi_codec::RecordType;
use crate::headers::{
    appended, ascii_string, ascii_text, field_views, fields_of, header_append, header_fields,
    header_groups, header_map_new, header_remove, is_header_name, is_header_value, is_visible,
    lemma_appended, lemma_group_index, lemma_odd_key, lemma_removed, lemma_same_name, lookup_key,
    removed_for, unique_names, valid_name, valid_value, values_of, visible,
    SAFE_NAMES,
};
use crate::replies::{protocol_error, synthetic_error, Response};
use crate::text::{
    decimal, decimal_str, lower, lower_str, split, split_str, str_eq, trim_str, trimmed, views,
};

verus! {

/// The most that is read of a body that no one receives.
pub const MAX_DISCARDED_BYTES: u64 = 8_388_608;

/// A parsed CGI head: the status, the header lines, and what was read past them.
#[derive(Debug)]
pub struct Head {
    /// The status code.
    pub status: u16,
    /// The header lines, in order.
    pub headers: Vec<(String, String)>,
    /// The bytes of the body that came with the head.
    pub body_remainder: Vec<u8>,
}

/// The views of header lines.
pub open spec fn line_views(lines: Seq<(String, String)>) -> Seq<(Seq<char>, Seq<char>)> {
    lines.map_values(|l: (String, String)| (l.0@, l.1@))
}

/// Whether a response may have a `Content-Length`.
pub open spec fn length_allowed(method: Seq<char>, status: u16) -> bool {
    &&& !(100 <= status <= 199)
    &&& !(method == "CONNECT"@ && 200 <= status <= 299)
    &&& status != 204
    &&& status != 304
}

/// Whether a response may have a body.
pub open spec fn body_allowed(method: Seq<char>, status: u16) -> bool {
    method != "HEAD"@ && length_allowed(method, status)
}

/// Whether a `Content-Length` is meaningful here.
pub fn can_have_content_length(method: &str, status: u16) -> (r: bool)
    ensures
        r == length_allowed(method@, status),
{
    if 100 <= status && status <= 199 {
        return false;
    }
    if str_eq(method, "CONNECT") && 200 <= status && status <= 299 {
        return false;
    }
    status != 204 && status != 304
}

/// Whether the server lets this response carry a body. It drops the body of any other
/// as soon as the head is out, which would look like the client hanging up.
pub fn can_have_body(method: &str, status: u16) -> (r: bool)
    ensures
        r == body_allowed(method@, status),
{
    !str_eq(method, "HEAD") && can_have_content_length(method, status)
}

/// Whether a line with the lower-case name `name` is among `lines`.
pub open spec fn has_line(lines: Seq<(Seq<char>, Seq<char>)>, name: Seq<char>) -> bool {
    exists|i: int| 0 <= i < lines.len() && lower((#[trigger] lines[i]).0) == name
}

/// The header lines of a drained response of `body_len` bytes.
pub open spec fn with_length(
    lines: Seq<(Seq<char>, Seq<char>)>,
    method: Seq<char>,
    status: u16,
    body_len: u64,
) -> Seq<(Seq<char>, Seq<char>)> {
    if method == "HEAD"@ && length_allowed(method, status) && !has_line(lines, "content-length"@) {
        lines.push(("Content-Length"@, decimal(body_len as nat)))
    } else {
        lines
    }
}

/// Whether a line called `name`, which is in lower case, is among `lines`.
fn contains_line(lines: &Vec<(String, String)>, name: &str) -> (r: bool)
    ensures
        r == has_line(line_views(lines@), name@),
{
    let ghost all = line_views(lines@);
    let mut i: usize = 0;
    while i < lines.len()
        invariant
            i <= lines@.len(),
            all == line_views(lines@),
            forall|j: int| 0 <= j < i ==> lower((#[trigger] all[j]).0) != name@,
        decreases lines@.len() - i,
    {
        assert(all[i as int].0 == lines@[i as int].0@);
        if str_eq(lower_str(lines[i].0.as_str()).as_str(), name) {
            return true;
        }
        i = i + 1;
    }
    false
}

/// Give a `HEAD` response the `Content-Length` that the same `GET` would have had. A
/// length that the script set itself wins.
pub fn restore_head_content_length(head: &mut Head, method: &str, body_len: u64)
    ensures
        line_views(final(head).headers@) == with_length(
            line_views(old(head).headers@),
            method@,
            old(head).status,
            body_len,
        ),
        final(head).status == old(head).status,
        final(head).body_remainder == old(head).body_remainder,
{
    if !str_eq(method, "HEAD") || !can_have_content_length(method, head.status) {
        return;
    }
    if contains_line(&head.headers, "content-length") {
        return;
    }
    let ghost before = line_views(head.headers@);
    head.headers.push(("Content-Length".to_owned(), decimal_str(body_len)));
    assert(line_views(head.headers@) =~= before.push(
        ("Content-Length"@, decimal(body_len as nat)),
    ));
}

/// A header line that goes out: valid, and not one that is meant for the proxy.
pub open spec fn sent_line(line: (Seq<char>, Seq<char>)) -> bool {
    &&& lower(line.0) != "x-accel-buffering"@
    &&& valid_name(line.0)
    &&& valid_value(encode_utf8(line.1))
}

/// The header fields that header lines make.
pub open spec fn sent_groups(lines: Seq<(Seq<char>, Seq<char>)>) -> Seq<(Seq<char>, Seq<Seq<u8>>)>
    decreases lines.len(),
{
    if lines.len() == 0 {
        Seq::empty()
    } else if sent_line(lines.last()) {
        appended(
            sent_groups(lines.drop_last()),
            lower(lines.last().0),
            encode_utf8(lines.last().1),
        )
    } else {
        sent_groups(lines.drop_last())
    }
}

/// The values that header lines send under `name`.
pub open spec fn sent_values(lines: Seq<(Seq<char>, Seq<char>)>, name: Seq<char>) -> Seq<Seq<u8>>
    decreases lines.len(),
{
    if lines.len() == 0 {
        Seq::empty()
    } else if sent_line(lines.last()) && lower(lines.last().0) == name {
        sent_values(lines.drop_last(), name).push(encode_utf8(lines.last().1))
    } else {
        sent_values(lines.drop_last(), name)
    }
}

/// What `sent_groups` holds under a name.
pub proof fn lemma_sent(lines: Seq<(Seq<char>, Seq<char>)>, name: Seq<char>)
    ensures
        unique_names(sent_groups(lines)),
        values_of(sent_groups(lines), name) == sent_values(lines, name),
    decreases lines.len(),
{
    if lines.len() > 0 {
        lemma_sent(lines.drop_last(), name);
        if sent_line(lines.last()) {
            lemma_appended(
                sent_groups(lines.drop_last()),
                lower(lines.last().0),
                encode_utf8(lines.last().1),
                name,
            );
        }
    }
}

/// More lines never make fewer names.
proof fn lemma_sent_grows(lines: Seq<(Seq<char>, Seq<char>)>, n: int)
    requires
        0 <= n <= lines.len(),
    ensures
        sent_groups(lines.take(n)).len() <= sent_groups(lines).len(),
    decreases lines.len(),
{
    if n == lines.len() {
        assert(lines.take(n) =~= lines);
    } else {
        lemma_sent_grows(lines.drop_last(), n);
        assert(lines.drop_last().take(n) =~= lines.take(n));
        lemma_group_index(sent_groups(lines.drop_last()), lower(lines.last().0));
    }
}

/// The trimmed pieces of a comma-separated value.
pub open spec fn list_items(value: Seq<char>) -> Seq<Seq<char>> {
    split(value, ',').map_values(|s: Seq<char>| trimmed(s))
}

/// The names that the `Connection` fields list.
pub open spec fn connection_names(fields: Seq<(Seq<char>, Seq<u8>)>) -> Seq<Seq<char>>
    decreases fields.len(),
{
    if fields.len() == 0 {
        Seq::empty()
    } else {
        let before = connection_names(fields.drop_last());
        if fields.last().0 == "connection"@ && visible(fields.last().1) {
            before + list_items(ascii_text(fields.last().1))
        } else {
            before
        }
    }
}

/// The header fields that are always for one hop only.
pub open spec fn hop_names() -> Seq<Seq<char>> {
    seq![
        "connection"@,
        "keep-alive"@,
        "proxy-authenticate"@,
        "proxy-authorization"@,
        "proxy-connection"@,
        "te"@,
        "trailer"@,
        "transfer-encoding"@,
        "upgrade"@,
    ]
}

/// `groups` without those that lookups of `names` find.
pub open spec fn all_removed(
    groups: Seq<(Seq<char>, Seq<Seq<u8>>)>,
    names: Seq<Seq<char>>,
) -> Seq<(Seq<char>, Seq<Seq<u8>>)>
    decreases names.len(),
{
    if names.len() == 0 {
        groups
    } else {
        removed_for(all_removed(groups, names.drop_last()), names.last())
    }
}

/// The names of all fields in `groups` that are for one hop only.
pub open spec fn hop_by_hop(groups: Seq<(Seq<char>, Seq<Seq<u8>>)>) -> Seq<Seq<char>> {
    connection_names(fields_of(groups)) + hop_names()
}

/// `groups` without the fields that are for one hop only.
pub open spec fn end_to_end(groups: Seq<(Seq<char>, Seq<Seq<u8>>)>) -> Seq<
    (Seq<char>, Seq<Seq<u8>>),
> {
    all_removed(groups, hop_by_hop(groups))
}

/// What removing does to each name.
proof fn lemma_all_removed(
    groups: Seq<(Seq<char>, Seq<Seq<u8>>)>,
    names: Seq<Seq<char>>,
    name: Seq<char>,
)
    requires
        unique_names(groups),
    ensures
        unique_names(all_removed(groups, names)),
        (exists|i: int| 0 <= i < names.len() && lookup_key(#[trigger] names[i]) == Some(name))
            ==> values_of(all_removed(groups, names), name) == Seq::<Seq<u8>>::empty(),
        !(exists|i: int| 0 <= i < names.len() && lookup_key(#[trigger] names[i]) == Some(name))
            ==> values_of(all_removed(groups, names), name) == values_of(groups, name),
    decreases names.len(),
{
    if names.len() > 0 {
        let head = names.drop_last();
        lemma_all_removed(groups, head, name);
        if lookup_key(names.last()) is Some {
            lemma_removed(all_removed(groups, head), lookup_key(names.last())->0, name);
        }
        if lookup_key(names.last()) != Some(name) {
            if exists|i: int| 0 <= i < names.len() && lookup_key(#[trigger] names[i]) == Some(name) {
                let i = choose|i: int|
                    0 <= i < names.len() && lookup_key(#[trigger] names[i]) == Some(name);
                assert(head[i] == names[i]);
            }
            if exists|i: int| 0 <= i < head.len() && lookup_key(#[trigger] head[i]) == Some(name) {
                let i = choose|i: int|
                    0 <= i < head.len() && lookup_key(#[trigger] head[i]) == Some(name);
                assert(names[i] == head[i]);
            }
        } else {
            assert(lookup_key(names[names.len() - 1]) == Some(name));
        }
    }
}

/// Nothing is sent under what is not the lowered form of a header name.
proof fn lemma_sent_names(lines: Seq<(Seq<char>, Seq<char>)>, name: Seq<char>)
    requires
        forall|n: Seq<char>| valid_name(n) ==> #[trigger] lower(n) != name,
    ensures
        sent_values(lines, name) == Seq::<Seq<u8>>::empty(),
    decreases lines.len(),
{
    if lines.len() > 0 {
        lemma_sent_names(lines.drop_last(), name);
    }
}

/// Of what was sent, a lookup of each listed name finds what stands under its lowered
/// form: what is no header name stands for nothing that was sent.
pub proof fn lemma_sent_removed(
    lines: Seq<(Seq<char>, Seq<char>)>,
    names: Seq<Seq<char>>,
    name: Seq<char>,
)
    ensures
        ({
            let left = values_of(all_removed(sent_groups(lines), names), name);
            let listed = exists|i: int|
                0 <= i < names.len() && lower(#[trigger] names[i]) == name;
            &&& listed ==> left == Seq::<Seq<u8>>::empty()
            &&& !listed ==> left == sent_values(lines, name)
        }),
{
    lemma_sent(lines, name);
    lemma_all_removed(sent_groups(lines), names, name);
    let found = exists|i: int| 0 <= i < names.len() && lookup_key(#[trigger] names[i]) == Some(name);
    if exists|i: int| 0 <= i < names.len() && lower(#[trigger] names[i]) == name {
        let i = choose|i: int| 0 <= i < names.len() && lower(#[trigger] names[i]) == name;
        if valid_name(names[i]) {
            assert(lookup_key(names[i]) == Some(name));
        } else if !found {
            assert forall|n: Seq<char>| valid_name(n) implies #[trigger] lower(n) != name by {
                if lower(n) == name {
                    lemma_same_name(n, names[i]);
                }
            }
            lemma_sent_names(lines, name);
        }
    } else if found {
        let i = choose|i: int| 0 <= i < names.len() && lookup_key(#[trigger] names[i]) == Some(name);
        assert(!valid_name(names[i]));
        assert forall|n: Seq<char>| valid_name(n) implies #[trigger] lower(n) != name by {
            lemma_odd_key(n, names[i]);
        }
        lemma_sent_names(lines, name);
    }
}

/// Remove the fields called by `names`.
fn remove_names(map: &mut http::HeaderMap<http::HeaderValue>, names: &Vec<String>)
    ensures
        header_groups(*final(map)) == all_removed(header_groups(*old(map)), views(names@)),
{
    let ghost before = header_groups(*map);
    let ghost all = views(names@);
    let mut i: usize = 0;
    while i < names.len()
        invariant
            i <= names@.len(),
            all == views(names@),
            header_groups(*map) == all_removed(before, all.take(i as int)),
        decreases names@.len() - i,
    {
        proof {
            assert(all.take(i + 1).drop_last() =~= all.take(i as int));
            assert(all.take(i + 1).last() == names@[i as int]@);
        }
        header_remove(map, names[i].as_str());
        i = i + 1;
    }
    assert(all.take(i as int) =~= all);
}

/// Append the items of a comma-separated value to `out`.
fn push_items(out: &mut Vec<String>, value: &str)
    ensures
        views(final(out)@) == views(old(out)@) + list_items(value@),
{
    let pieces: Vec<String> = split_str(value, ',');
    let ghost before = views(out@);
    let ghost items = list_items(value@);
    let mut i: usize = 0;
    assert(before + items.take(0) =~= before);
    while i < pieces.len()
        invariant
            i <= pieces@.len(),
            views(pieces@) == split(value@, ','),
            items == list_items(value@),
            views(out@) == before + items.take(i as int),
        decreases pieces@.len() - i,
    {
        let item: String = trim_str(pieces[i].as_str());
        let ghost so_far = views(out@);
        assert(views(pieces@)[i as int] == pieces@[i as int]@);
        assert(item@ == items[i as int]);
        let ghost added = item@;
        out.push(item);
        i = i + 1;
        assert(views(out@) =~= so_far.push(added));
        assert(views(out@) =~= before + items.take(i as int));
    }
    assert(items.take(i as int) =~= items);
}

/// The names that the `Connection` fields list.
pub fn connection_tokens(map: &http::HeaderMap<http::HeaderValue>) -> (names: Vec<String>)
    ensures
        views(names@) == connection_names(fields_of(header_groups(*map))),
{
    let fields: Vec<(String, Vec<u8>)> = header_fields(map);
    let ghost all = field_views(fields@);
    let mut names: Vec<String> = Vec::new();
    let mut i: usize = 0;
    assert(views(names@) =~= Seq::empty());
    while i < fields.len()
        invariant
            i <= fields@.len(),
            all == field_views(fields@),
            views(names@) == connection_names(all.take(i as int)),
        decreases fields@.len() - i,
    {
        proof {
            assert(all.take(i + 1).drop_last() =~= all.take(i as int));
            assert(all.take(i + 1).last() == (fields@[i as int].0@, fields@[i as int].1@));
        }
        if str_eq(fields[i].0.as_str(), "connection") && is_visible(fields[i].1.as_slice()) {
            let value: String = ascii_string(&fields[i].1);
            push_items(&mut names, value.as_str());
        }
        i = i + 1;
    }
    assert(all.take(i as int) =~= all);
    names
}

/// Strip the fields that are for one hop only: the fixed ones, and those that a
/// `Connection` field lists.
pub fn strip_hop_by_hop_only(map: &mut http::HeaderMap<http::HeaderValue>)
    ensures
        header_groups(*final(map)) == end_to_end(header_groups(*old(map))),
{
    let mut names: Vec<String> = connection_tokens(map);
    let ghost listed = views(names@);
    names.push("connection".to_owned());
    names.push("keep-alive".to_owned());
    names.push("proxy-authenticate".to_owned());
    names.push("proxy-authorization".to_owned());
    names.push("proxy-connection".to_owned());
    names.push("te".to_owned());
    names.push("trailer".to_owned());
    names.push("transfer-encoding".to_owned());
    names.push("upgrade".to_owned());
    assert(views(names@) =~= listed + hop_names());
    remove_names(map, &names);
}

/// Build the response from a parsed head and a body. Lines that are no valid header
/// fields are skipped, as is `X-Accel-Buffering`; fields for one hop only are
/// stripped. It fails only where there are more header names than a header map holds.
pub fn synthesise_response<B>(head: Head, body: B) -> (r: Result<Response<B>, ProxyError>)
    ensures
        sent_groups(line_views(head.headers@)).len() <= SAFE_NAMES ==> r is Ok,
        r is Ok ==> {
            &&& r->Ok_0.status == head.status
            &&& header_groups(r->Ok_0.headers) == end_to_end(sent_groups(line_views(head.headers@)))
            &&& r->Ok_0.body == body
        },
        r is Err ==> protocol_error(r, "failed to build response"@),
{
    let mut headers: http::HeaderMap<http::HeaderValue> = header_map_new();
    let ghost all = line_views(head.headers@);
    let mut i: usize = 0;
    while i < head.headers.len()
        invariant
            i <= head.headers@.len(),
            all == line_views(head.headers@),
            header_groups(headers) == sent_groups(all.take(i as int)),
        decreases head.headers@.len() - i,
    {
        proof {
            assert(all.take(i + 1).drop_last() =~= all.take(i as int));
            assert(all.take(i + 1).last() == (head.headers@[i as int].0@, head.headers@[i as int].1@));
            lemma_sent_grows(all, i as int);
        }
        let name: &str = head.headers[i].0.as_str();
        let value: &[u8] = head.headers[i].1.as_str().as_bytes();
        if !str_eq(lower_str(name).as_str(), "x-accel-buffering") && is_header_name(name)
            && is_header_value(value) {
            if !header_append(&mut headers, name, value) {
                return Err(synthetic_error("failed to build response"));
            }
        }
        i = i + 1;
    }
    assert(all.take(i as int) =~= all);
    strip_hop_by_hop_only(&mut headers);
    Ok(Response { status: head.status, headers, body })
}

/// What a client receives of a script's header lines: under each name that is not for
/// one hop only, the valid values in their order, `Content-Length` included; under
/// any other name, and under `X-Accel-Buffering`, nothing.
pub proof fn law_client_receives(lines: Seq<(Seq<char>, Seq<char>)>, name: Seq<char>)
    ensures
        ({
            let groups = sent_groups(lines);
            let dropped = exists|i: int|
                0 <= i < hop_by_hop(groups).len() && lower(#[trigger] hop_by_hop(groups)[i]) == name;
            &&& dropped ==> values_of(end_to_end(groups), name) == Seq::<Seq<u8>>::empty()
            &&& !dropped ==> values_of(end_to_end(groups), name) == sent_values(lines, name)
        }),
        values_of(end_to_end(sent_groups(lines)), "x-accel-buffering"@) == Seq::<Seq<u8>>::empty(),
{
    let accel = "x-accel-buffering"@;
    lemma_sent_removed(lines, hop_by_hop(sent_groups(lines)), name);
    lemma_sent_removed(lines, hop_by_hop(sent_groups(lines)), accel);
    lemma_accel(lines);
}

/// `X-Accel-Buffering` is never sent.
proof fn lemma_accel(lines: Seq<(Seq<char>, Seq<char>)>)
    ensures
        sent_values(lines, "x-accel-buffering"@) == Seq::<Seq<u8>>::empty(),
    decreases lines.len(),
{
    if lines.len() > 0 {
        lemma_accel(lines.drop_last());
    }
}

/// No field for one hop only reaches a client.
pub proof fn law_hop_by_hop_never_reaches_the_client(lines: Seq<(Seq<char>, Seq<char>)>, k: int)
    requires
        0 <= k < hop_by_hop(sent_groups(lines)).len(),
    ensures
        values_of(end_to_end(sent_groups(lines)), lower(hop_by_hop(sent_groups(lines))[k]))
            == Seq::<Seq<u8>>::empty(),
{
    law_client_receives(lines, lower(hop_by_hop(sent_groups(lines))[k]));
}

/// What the parser of the CGI head makes of one more piece of output.
#[derive(Debug)]
pub enum HeadFeed {
    /// The head is not complete yet.
    Pending,
    /// The head is complete.
    Complete(Head),
    /// The head is longer than the parser accepts.
    TooLarge,
}

/// How far an exchange has come.
#[derive(Debug)]
pub enum Exchange {
    /// The head is not complete; a record is to be read.
    AwaitRecord,
    /// The parser has been handed a record.
    AwaitFeed,
    /// The parser has been asked for what it has.
    AwaitFinish,
    /// The head is held back until the body, which no one receives, has been read.
    Drain {
        /// The head.
        head: Head,
        /// How much of the body has been read.
        discarded: u64,
    },
    /// The head is out, and the body is relayed.
    Relay,
    /// The exchange is over.
    Closed,
}

/// What has happened.
#[derive(Debug)]
pub enum Event {
    /// A record of this request has been read.
    Record(RecordType, Vec<u8>),
    /// The parser has taken what it was handed.
    Fed(HeadFeed),
    /// The parser has given up what it has.
    Finished(Head),
    /// No record could be read.
    ReadFailed(ProxyError),
    /// The client has gone.
    ClientGone,
}

/// What is to be done.
#[derive(Debug)]
pub enum Action {
    /// Read the next record.
    Read,
    /// Hand these bytes to the parser of the head.
    Feed(Vec<u8>),
    /// Ask the parser for what it has.
    Finish,
    /// Log this error output, and read the next record.
    Log(Vec<u8>),
    /// Stop sending the request body, and answer without a body.
    Settle(Result<Response<()>, ProxyError>),
    /// Answer with this error.
    Fail(ProxyError),
    /// Answer with a body that is relayed, and read the next record.
    Stream {
        /// The answer.
        response: Response<()>,
        /// The first piece of the body, where it came with the head.
        first: Option<Vec<u8>>,
    },
    /// Relay this piece of the body, and read the next record.
    Send(Vec<u8>),
    /// Break the body off with this message.
    Break(String),
    /// End the body. Where `wind_down` says so, the rest of the request body is still
    /// read; else everything is dropped.
    Close {
        /// Whether the rest of the request body is read.
        wind_down: bool,
    },
}

/// Whether `r` is the answer that a head with these header lines makes.
pub open spec fn is_answer(
    r: Result<Response<()>, ProxyError>,
    status: u16,
    lines: Seq<(Seq<char>, Seq<char>)>,
) -> bool {
    &&& sent_groups(lines).len() <= SAFE_NAMES ==> r is Ok
    &&& r is Ok ==> r->Ok_0.status == status && header_groups(r->Ok_0.headers) == end_to_end(
        sent_groups(lines),
    )
    &&& r is Err ==> protocol_error(r, "failed to build response"@)
}

/// The bytes of the first piece of a body.
pub open spec fn first_bytes(first: Option<Vec<u8>>) -> Seq<u8> {
    match first {
        Some(bytes) => bytes@,
        None => Seq::empty(),
    }
}

/// What is done with error output: an empty piece is not logged.
pub open spec fn log_action(content: Vec<u8>) -> Action {
    if content@.len() == 0 {
        Action::Read
    } else {
        Action::Log(content)
    }
}

/// How much of the body has been read once `more` bytes have been.
pub open spec fn drained(discarded: u64, more: nat) -> u64 {
    if discarded + more <= u64::MAX {
        (discarded + more) as u64
    } else {
        u64::MAX
    }
}

/// The step that an exchange takes on an event: to `next`, with `action`.
pub open spec fn exchange_step(
    from: Exchange,
    method: Seq<char>,
    event: Event,
    next: Exchange,
    action: Action,
) -> bool {
    match (from, event) {
        (Exchange::AwaitRecord, Event::Record(kind, content)) => match kind {
            RecordType::Stdout => next is AwaitFeed && action == Action::Feed(content),
            RecordType::Stderr => next is AwaitRecord && action == log_action(content),
            RecordType::EndRequest => next is AwaitFinish && action is Finish,
            _ => next is AwaitRecord && action is Read,
        },
        (Exchange::AwaitRecord, Event::ReadFailed(e)) => next is Closed && action == Action::Fail(e),
        (Exchange::AwaitFeed, Event::Fed(HeadFeed::Pending)) => next is AwaitRecord && action is Read,
        (Exchange::AwaitFeed, Event::Fed(HeadFeed::TooLarge)) => {
            &&& next is Closed
            &&& action is Fail
            &&& action->Fail_0 is BackendProtocol
            &&& action->Fail_0->BackendProtocol_source@
                == "FPM response head exceeded the size limit"@
        },
        (Exchange::AwaitFeed, Event::Fed(HeadFeed::Complete(head))) => if body_allowed(
            method,
            head.status,
        ) {
            ||| next is Relay && action is Stream && first_bytes(action->first)
                == head.body_remainder@ && (action->first is Some ==> action->first->0@.len() > 0)
                && is_answer(Ok(action->response), head.status, line_views(head.headers@))
            ||| next is Closed && action is Fail && is_answer(
                Err(action->Fail_0),
                head.status,
                line_views(head.headers@),
            )
        } else {
            next == Exchange::Drain { head, discarded: 0 } && action is Read
        },
        (Exchange::AwaitFinish, Event::Finished(head)) => {
            &&& next is Closed
            &&& action is Settle
            &&& is_answer(action->Settle_0, head.status, line_views(head.headers@))
        },
        (Exchange::Drain { head, discarded }, Event::Record(kind, content)) => match kind {
            RecordType::Stdout => {
                let total = drained(discarded, content@.len());
                if total > MAX_DISCARDED_BYTES {
                    &&& next is Closed
                    &&& action is Settle
                    &&& is_answer(action->Settle_0, head.status, line_views(head.headers@))
                } else {
                    next == (Exchange::Drain { head, discarded: total }) && action is Read
                }
            },
            RecordType::Stderr => next == from && action == log_action(content),
            RecordType::EndRequest => {
                &&& next is Closed
                &&& action is Settle
                &&& is_answer(
                    action->Settle_0,
                    head.status,
                    with_length(
                        line_views(head.headers@),
                        method,
                        head.status,
                        drained(discarded, head.body_remainder@.len()),
                    ),
                )
            },
            _ => next == from && action is Read,
        },
        (Exchange::Drain { .. }, Event::ReadFailed(e)) => next is Closed && action == Action::Fail(
            e,
        ),
        (Exchange::Relay, Event::Record(kind, content)) => match kind {
            RecordType::Stdout => next is Relay && action == (if content@.len() == 0 {
                Action::Read
            } else {
                Action::Send(content)
            }),
            RecordType::Stderr => next is Relay && action == log_action(content),
            RecordType::EndRequest => next is Closed && action == (Action::Close {
                wind_down: true,
            }),
            _ => next is Relay && action is Read,
        },
        (Exchange::Relay, Event::ReadFailed(e)) => next is Closed && action is Break
            && action->Break_0@ == error_text(e),
        _ => next is Closed && action == (Action::Close { wind_down: false }),
    }
}

/// What is done with error output.
fn log_stderr(content: Vec<u8>) -> (r: Action)
    ensures
        r == log_action(content),
{
    if content.len() == 0 {
        Action::Read
    } else {
        Action::Log(content)
    }
}

/// How much of the body has been read once `more` bytes have been.
fn add_drained(discarded: u64, more: usize) -> (r: u64)
    ensures
        r == drained(discarded, more as nat),
{
    if more as u64 > u64::MAX - discarded {
        u64::MAX
    } else {
        discarded + more as u64
    }
}

/// The step on a head that has become complete.
fn head_complete(method: &str, head: Head) -> (r: (Exchange, Action))
    ensures
        exchange_step(
            Exchange::AwaitFeed,
            method@,
            Event::Fed(HeadFeed::Complete(head)),
            r.0,
            r.1,
        ),
{
    if !can_have_body(method, head.status) {
        return (Exchange::Drain { head, discarded: 0 }, Action::Read);
    }
    let mut head: Head = head;
    let ghost remainder = head.body_remainder@;
    let mut first: Vec<u8> = Vec::new();
    std::mem::swap(&mut first, &mut head.body_remainder);
    match synthesise_response(head, ()) {
        Ok(response) => {
            let first: Option<Vec<u8>> = if first.len() == 0 {
                assert(first@ =~= Seq::empty());
                None
            } else {
                Some(first)
            };
            (Exchange::Relay, Action::Stream { response, first })
        },
        Err(e) => (Exchange::Closed, Action::Fail(e)),
    }
}

/// The step on a record of a body that no one receives.
fn drain_record(method: &str, head: Head, discarded: u64, kind: RecordType, content: Vec<u8>) -> (r: (
    Exchange,
    Action,
))
    ensures
        exchange_step(
            Exchange::Drain { head, discarded },
            method@,
            Event::Record(kind, content),
            r.0,
            r.1,
        ),
{
    match kind {
        RecordType::Stdout => {
            let total: u64 = add_drained(discarded, content.len());
            if total > MAX_DISCARDED_BYTES {
                (Exchange::Closed, Action::Settle(synthesise_response(head, ())))
            } else {
                (Exchange::Drain { head, discarded: total }, Action::Read)
            }
        },
        RecordType::Stderr => (Exchange::Drain { head, discarded }, log_stderr(content)),
        RecordType::EndRequest => {
            let total: u64 = add_drained(discarded, head.body_remainder.len());
            let mut head: Head = head;
            restore_head_content_length(&mut head, method, total);
            (Exchange::Closed, Action::Settle(synthesise_response(head, ())))
        },
        _ => (Exchange::Drain { head, discarded }, Action::Read),
    }
}

impl Exchange {
    /// Take one step.
    pub fn step(self, method: &str, event: Event) -> (r: (Exchange, Action))
        ensures
            exchange_step(self, method@, event, r.0, r.1),
    {
        match self {
            Exchange::AwaitRecord => match event {
                Event::Record(kind, content) => match kind {
                    RecordType::Stdout => (Exchange::AwaitFeed, Action::Feed(content)),
                    RecordType::Stderr => (Exchange::AwaitRecord, log_stderr(content)),
                    RecordType::EndRequest => (Exchange::AwaitFinish, Action::Finish),
                    _ => (Exchange::AwaitRecord, Action::Read),
                },
                Event::ReadFailed(e) => (Exchange::Closed, Action::Fail(e)),
                _ => (Exchange::Closed, Action::Close { wind_down: false }),
            },
            Exchange::AwaitFeed => match event {
                Event::Fed(HeadFeed::Pending) => (Exchange::AwaitRecord, Action::Read),
                Event::Fed(HeadFeed::TooLarge) => (
                    Exchange::Closed,
                    Action::Fail(synthetic_error("FPM response head exceeded the size limit")),
                ),
                Event::Fed(HeadFeed::Complete(head)) => head_complete(method, head),
                _ => (Exchange::Closed, Action::Close { wind_down: false }),
            },
            Exchange::AwaitFinish => match event {
                Event::Finished(head) => (
                    Exchange::Closed,
                    Action::Settle(synthesise_response(head, ())),
                ),
                _ => (Exchange::Closed, Action::Close { wind_down: false }),
            },
            Exchange::Drain { head, discarded } => match event {
                Event::Record(kind, content) => drain_record(
                    method,
                    head,
                    discarded,
                    kind,
                    content,
                ),
                Event::ReadFailed(e) => (Exchange::Closed, Action::Fail(e)),
                _ => (Exchange::Closed, Action::Close { wind_down: false }),
            },
            Exchange::Relay => match event {
                Event::Record(kind, content) => match kind {
                    RecordType::Stdout => (
                        Exchange::Relay,
                        if content.len() == 0 {
                            Action::Read
                        } else {
                            Action::Send(content)
                        },
                    ),
                    RecordType::Stderr => (Exchange::Relay, log_stderr(content)),
                    RecordType::EndRequest => (Exchange::Closed, Action::Close { wind_down: true }),
                    _ => (Exchange::Relay, Action::Read),
                },
                Event::ReadFailed(e) => (Exchange::Closed, Action::Break(e.to_string())),
                _ => (Exchange::Closed, Action::Close { wind_down: false }),
            },
            Exchange::Closed => (Exchange::Closed, Action::Close { wind_down: false }),
        }
    }
}

/// Steps one after another.
pub open spec fn is_run(
    states: Seq<Exchange>,
    method: Seq<char>,
    events: Seq<Event>,
    actions: Seq<Action>,
) -> bool {
    &&& states.len() == events.len() + 1
    &&& actions.len() == events.len()
    &&& forall|i: int|
        0 <= i < events.len() ==> exchange_step(
            #[trigger] states[i],
            method,
            events[i],
            states[i + 1],
            actions[i],
        )
}

/// What the script wrote in the course of `events`.
pub open spec fn written(events: Seq<Event>) -> Seq<u8>
    decreases events.len(),
{
    if events.len() == 0 {
        Seq::empty()
    } else {
        match events.last() {
            Event::Record(RecordType::Stdout, content) => written(events.drop_last()) + content@,
            _ => written(events.drop_last()),
        }
    }
}

/// What `actions` put into the body.
pub open spec fn relayed(actions: Seq<Action>) -> Seq<u8>
    decreases actions.len(),
{
    if actions.len() == 0 {
        Seq::empty()
    } else {
        match actions.last() {
            Action::Stream { first, .. } => relayed(actions.drop_last()) + first_bytes(first),
            Action::Send(content) => relayed(actions.drop_last()) + content@,
            _ => relayed(actions.drop_last()),
        }
    }
}

/// A run without its last step is a run.
pub proof fn lemma_shorter_run(
    states: Seq<Exchange>,
    method: Seq<char>,
    events: Seq<Event>,
    actions: Seq<Action>,
)
    requires
        is_run(states, method, events, actions),
        events.len() > 0,
    ensures
        is_run(states.drop_last(), method, events.drop_last(), actions.drop_last()),
        exchange_step(
            states[events.len() - 1],
            method,
            events.last(),
            states.last(),
            actions.last(),
        ),
{
    let s = states.drop_last();
    let e = events.drop_last();
    let a = actions.drop_last();
    assert forall|i: int| 0 <= i < e.len() implies exchange_step(
        #[trigger] s[i],
        method,
        e[i],
        s[i + 1],
        a[i],
    ) by {
        assert(s[i] == states[i]);
    }
    let n = events.len() - 1;
    assert(exchange_step(states[n], method, events[n], states[n + 1], actions[n]));
}

/// While the body is relayed, the client receives what the script writes, byte for
/// byte and in order, and nothing else: error output never becomes a part of it.
pub proof fn law_body_is_what_the_script_wrote(
    states: Seq<Exchange>,
    method: Seq<char>,
    events: Seq<Event>,
    actions: Seq<Action>,
)
    requires
        is_run(states, method, events, actions),
        forall|i: int| 0 <= i < events.len() ==> (#[trigger] states[i]) is Relay,
    ensures
        relayed(actions) == written(events),
    decreases events.len(),
{
    if events.len() > 0 {
        lemma_shorter_run(states, method, events, actions);
        let s = states.drop_last();
        assert forall|i: int| 0 <= i < events.len() - 1 implies (#[trigger] s[i]) is Relay by {
            assert(s[i] == states[i]);
        }
        law_body_is_what_the_script_wrote(
            s,
            method,
            events.drop_last(),
            actions.drop_last(),
        );
        assert(states[events.len() - 1] is Relay);
        if let Event::Record(RecordType::Stdout, content) = events.last() {
            if content@.len() == 0 {
                assert(written(events.drop_last()) + content@ =~= written(events.drop_last()));
            }
        }
    }
}

/// The client receives the whole body of a streamed response: what came with the head,
/// and then what the script writes, byte for byte and in order.
pub proof fn law_streamed_bodies_are_whole(
    states: Seq<Exchange>,
    method: Seq<char>,
    events: Seq<Event>,
    actions: Seq<Action>,
    head: Head,
)
    requires
        is_run(states, method, events, actions),
        events.len() > 0,
        states[0] is AwaitFeed,
        events[0] == Event::Fed(HeadFeed::Complete(head)),
        actions[0] is Stream,
        forall|i: int| 1 <= i < events.len() ==> (#[trigger] states[i]) is Relay,
    ensures
        relayed(actions) == head.body_remainder@ + written(events),
{
    let s = states.skip(1);
    let e = events.skip(1);
    let a = actions.skip(1);
    assert(exchange_step(states[0], method, events[0], states[1], actions[0]));
    assert forall|i: int| 0 <= i < e.len() implies {
        &&& (#[trigger] s[i]) is Relay
        &&& exchange_step(s[i], method, e[i], s[i + 1], a[i])
    } by {
        assert(s[i] == states[i + 1]);
        assert(exchange_step(states[i + 1], method, events[i + 1], states[i + 2], actions[i + 1]));
    }
    law_body_is_what_the_script_wrote(s, method, e, a);
    lemma_relayed_first(actions);
    lemma_written_first(events);
}

/// What actions put into the body begins with what the first of them does.
proof fn lemma_relayed_first(actions: Seq<Action>)
    requires
        actions.len() > 0,
    ensures
        relayed(actions) == relayed(seq![actions[0]]) + relayed(actions.skip(1)),
        actions[0] is Stream ==> relayed(seq![actions[0]]) == first_bytes(actions[0]->first),
    decreases actions.len(),
{
    let one = seq![actions[0]];
    assert(one.drop_last() =~= Seq::empty());
    assert(relayed(one.drop_last()) =~= Seq::empty());
    if actions[0] is Stream {
        assert(relayed(one) =~= first_bytes(actions[0]->first));
    }
    if actions.len() == 1 {
        assert(actions =~= one);
        assert(relayed(actions.skip(1)) =~= Seq::empty());
        assert(relayed(one) + Seq::<u8>::empty() =~= relayed(one));
    } else {
        let shorter = actions.drop_last();
        lemma_relayed_first(shorter);
        assert(actions.skip(1).drop_last() =~= shorter.skip(1));
        assert(actions.skip(1).last() == actions.last());
        assert(relayed(actions) =~= relayed(one) + relayed(actions.skip(1)));
    }
}

/// Events of which the first is no record write what the others do.
proof fn lemma_written_first(events: Seq<Event>)
    requires
        events.len() > 0,
        !(events[0] is Record),
    ensures
        written(events) == written(events.skip(1)),
    decreases events.len(),
{
    if events.len() == 1 {
        assert(written(events.drop_last()) =~= Seq::empty());
        assert(written(events.skip(1)) =~= Seq::empty());
    } else {
        let shorter = events.drop_last();
        lemma_written_first(shorter);
        assert(events.skip(1).drop_last() =~= shorter.skip(1));
        assert(events.skip(1).last() == events.last());
    }
}

/// What answers a request, in one action.
pub open spec fn answers_request(action: Action) -> bool {
    action is Settle || action is Fail || action is Stream
}

/// After an answer the exchange relays or is over, and stays so.
proof fn lemma_after_an_answer(
    states: Seq<Exchange>,
    method: Seq<char>,
    events: Seq<Event>,
    actions: Seq<Action>,
    i: int,
    k: int,
)
    requires
        is_run(states, method, events, actions),
        0 <= i < k < states.len(),
        answers_request(actions[i]),
    ensures
        states[k] is Relay || states[k] is Closed,
    decreases k,
{
    if i + 1 < k {
        lemma_after_an_answer(states, method, events, actions, i, k - 1);
    }
    assert(exchange_step(states[k - 1], method, events[k - 1], states[k - 1 + 1], actions[k - 1]));
}

/// A request is answered at most once: whatever goes wrong after the answer, the
/// status that the client has seen stands.
pub proof fn law_a_request_is_answered_once(
    states: Seq<Exchange>,
    method: Seq<char>,
    events: Seq<Event>,
    actions: Seq<Action>,
    i: int,
    k: int,
)
    requires
        is_run(states, method, events, actions),
        0 <= i < k < actions.len(),
        answers_request(actions[i]),
    ensures
        !answers_request(actions[k]),
{
    lemma_after_an_answer(states, method, events, actions, i, k);
    assert(exchange_step(states[k], method, events[k], states[k + 1], actions[k]));
}

/// A body is relayed only where the response may have one.
pub proof fn law_only_allowed_bodies_are_relayed(
    method: Seq<char>,
    head: Head,
    next: Exchange,
    action: Action,
)
    requires
        exchange_step(
            Exchange::AwaitFeed,
            method,
            Event::Fed(HeadFeed::Complete(head)),
            next,
            action,
        ),
        action is Stream,
    ensures
        body_allowed(method, head.status),
{
}

/// The records of a drained body, in the course of which nothing else happens.
pub open spec fn drain_events(events: Seq<Event>) -> bool {
    forall|i: int|
        0 <= i < events.len() ==> (#[trigger] events[i]) is Record && !(
        events[i]->Record_0 is EndRequest)
}

/// A drained response is held back until its end, however long the script takes, and
/// counted to the byte.
pub proof fn law_drained_bodies_are_counted(
    states: Seq<Exchange>,
    method: Seq<char>,
    events: Seq<Event>,
    actions: Seq<Action>,
    head: Head,
)
    requires
        is_run(states, method, events, actions),
        states[0] == (Exchange::Drain { head, discarded: 0 }),
        drain_events(events),
        written(events).len() <= MAX_DISCARDED_BYTES,
    ensures
        states.last() == (Exchange::Drain { head, discarded: written(events).len() as u64 }),
        forall|i: int| 0 <= i < actions.len() ==> !answers_request(#[trigger] actions[i]),
    decreases events.len(),
{
    if events.len() > 0 {
        lemma_shorter_run(states, method, events, actions);
        let e = events.drop_last();
        assert forall|i: int| 0 <= i < e.len() implies (#[trigger] e[i]) is Record && !(
        e[i]->Record_0 is EndRequest) by {
            assert(e[i] == events[i]);
        }
        assert(written(e).len() <= written(events).len());
        law_drained_bodies_are_counted(
            states.drop_last(),
            method,
            e,
            actions.drop_last(),
            head,
        );
        let n = events.len() - 1;
        assert(states.drop_last().last() == states[n]);
        assert(events[n] is Record);
        assert forall|i: int| 0 <= i < actions.len() implies !answers_request(#[trigger] actions[i])
            by {
            if i < n {
                assert(actions[i] == actions.drop_last()[i]);
            }
        }
    }
}

/// A `HEAD` response without a length of its own is answered with the length that the
/// same `GET` would have had: what came with the head, and all that followed.
pub proof fn law_head_reports_the_length(
    states: Seq<Exchange>,
    method: Seq<char>,
    events: Seq<Event>,
    actions: Seq<Action>,
    head: Head,
    end: Vec<u8>,
    next: Exchange,
    action: Action,
)
    requires
        is_run(states, method, events, actions),
        states[0] == (Exchange::Drain { head, discarded: 0 }),
        drain_events(events),
        written(events).len() <= MAX_DISCARDED_BYTES,
        head.body_remainder@.len() + written(events).len() <= u64::MAX,
        exchange_step(
            states.last(),
            method,
            Event::Record(RecordType::EndRequest, end),
            next,
            action,
        ),
    ensures
        action is Settle,
        is_answer(
            action->Settle_0,
            head.status,
            with_length(
                line_views(head.headers@),
                method,
                head.status,
                (head.body_remainder@.len() + written(events).len()) as u64,
            ),
        ),
{
    law_drained_bodies_are_counted(states, method, events, actions, head);
}

} // verus!
