//! Laws of [`exchange`](crate::exchange).

use vstd::prelude::*;
use vstd::utf8::{
    encode_scalar, encode_utf8, has_width_1_encoding, leading_byte_width_1, leading_byte_width_2,
    leading_byte_width_3, leading_byte_width_4,
};

use crate::error::{error_text, ProxyError};
use crate::exchange::{
    body_allowed, connection_names, exchange_step, hop_by_hop, hop_names, is_answer, is_run,
    length_allowed, lemma_sent, lemma_sent_removed, line_views, list_items, sent_groups,
    sent_values, with_length, written, Action, Event, Exchange, Head, HeadFeed,
};
use crate::fcgi_codec::RecordType;
use crate::headers::{
    ascii_text, fields_of, group_fields, group_index, header_groups, lemma_group_index,
    lemma_lookup, lemma_same_name, unique_names, valid_name, valid_value, values_of, visible,
};
use crate::laws::text::number;
use crate::replies::Response;
use crate::text::{lower, split, trimmed};

verus! {

/// The header fields that concern one connection only.
pub open spec fn one_hop(name: Seq<char>) -> bool {
    ||| name == "connection"@
    ||| name == "keep-alive"@
    ||| name == "proxy-authenticate"@
    ||| name == "proxy-authorization"@
    ||| name == "proxy-connection"@
    ||| name == "te"@
    ||| name == "trailer"@
    ||| name == "transfer-encoding"@
    ||| name == "upgrade"@
}

/// Whether item `k` of line `j`, a readable `Connection` line, is `name` in any case.
pub open spec fn lists(
    lines: Seq<(Seq<char>, Seq<char>)>,
    j: int,
    k: int,
    name: Seq<char>,
) -> bool {
    &&& 0 <= j < lines.len()
    &&& lower(lines[j].0) == "connection"@
    &&& visible(encode_utf8(lines[j].1))
    &&& 0 <= k < split(lines[j].1, ',').len()
    &&& lower(trimmed(split(lines[j].1, ',')[k])) == name
}

/// Whether a `Connection` line lists `name`.
pub open spec fn listed(lines: Seq<(Seq<char>, Seq<char>)>, name: Seq<char>) -> bool {
    exists|j: int, k: int| lists(lines, j, k, name)
}

/// The values of the valid lines called `name`, in their order.
pub open spec fn line_values(lines: Seq<(Seq<char>, Seq<char>)>, name: Seq<char>) -> Seq<Seq<u8>> {
    lines.filter(
        |l: (Seq<char>, Seq<char>)|
            valid_name(l.0) && valid_value(encode_utf8(l.1)) && lower(l.0) == name,
    ).map_values(|l: (Seq<char>, Seq<char>)| encode_utf8(l.1))
}

proof fn lemma_line_values(lines: Seq<(Seq<char>, Seq<char>)>, name: Seq<char>)
    requires
        name != "x-accel-buffering"@,
    ensures
        sent_values(lines, name) == line_values(lines, name),
    decreases lines.len(),
{
    reveal(Seq::filter);
    if lines.len() > 0 {
        lemma_line_values(lines.drop_last(), name);
    }
    assert(sent_values(lines, name) =~= line_values(lines, name));
}

proof fn lemma_line_values_hold(lines: Seq<(Seq<char>, Seq<char>)>, name: Seq<char>)
    ensures
        forall|i: int|
            0 <= i < lines.len() && valid_name((#[trigger] lines[i]).0) && valid_value(
                encode_utf8(lines[i].1),
            ) && lower(lines[i].0) == name ==> line_values(lines, name).contains(
                encode_utf8(lines[i].1),
            ),
        forall|v: Seq<u8>| #[trigger]
            line_values(lines, name).contains(v) ==> exists|i: int|
                0 <= i < lines.len() && valid_name((#[trigger] lines[i]).0) && valid_value(
                    encode_utf8(lines[i].1),
                ) && lower(lines[i].0) == name && encode_utf8(lines[i].1) == v,
    decreases lines.len(),
{
    reveal(Seq::filter);
    let now = line_values(lines, name);
    if lines.len() > 0 {
        let head = lines.drop_last();
        let last = lines.last();
        lemma_line_values_hold(head, name);
        let before = line_values(head, name);
        if valid_name(last.0) && valid_value(encode_utf8(last.1)) && lower(last.0) == name {
            assert(now =~= before.push(encode_utf8(last.1)));
            assert(now[before.len() as int] == encode_utf8(last.1));
        } else {
            assert(now =~= before);
        }
        assert forall|i: int|
            0 <= i < lines.len() && valid_name((#[trigger] lines[i]).0) && valid_value(
                encode_utf8(lines[i].1),
            ) && lower(lines[i].0) == name implies now.contains(encode_utf8(lines[i].1)) by {
            if i < lines.len() - 1 {
                assert(head[i] == lines[i]);
                let k = before.index_of(encode_utf8(lines[i].1));
                assert(now[k] == encode_utf8(lines[i].1));
            }
        }
        assert forall|v: Seq<u8>| #[trigger] now.contains(v) implies exists|i: int|
            0 <= i < lines.len() && valid_name((#[trigger] lines[i]).0) && valid_value(
                encode_utf8(lines[i].1),
            ) && lower(lines[i].0) == name && encode_utf8(lines[i].1) == v by {
            if before.contains(v) {
                let i = choose|i: int|
                    0 <= i < head.len() && valid_name((#[trigger] head[i]).0) && valid_value(
                        encode_utf8(head[i].1),
                    ) && lower(head[i].0) == name && encode_utf8(head[i].1) == v;
                assert(lines[i] == head[i]);
            } else {
                let k = now.index_of(v);
                if k < before.len() {
                    assert(before[k] == v);
                }
                assert(lines[lines.len() - 1] == last);
            }
        }
    } else {
        assert(now =~= Seq::empty());
    }
}

/// A field is in a map exactly where its value is one of those under its name.
proof fn lemma_fields_of(groups: Seq<(Seq<char>, Seq<Seq<u8>>)>, name: Seq<char>, value: Seq<u8>)
    requires
        unique_names(groups),
    ensures
        fields_of(groups).contains((name, value)) <==> values_of(groups, name).contains(value),
    decreases groups.len(),
{
    if groups.len() == 0 {
        assert(!fields_of(groups).contains((name, value)));
    } else {
        let head = groups.drop_last();
        let last = groups.last();
        assert forall|i: int, j: int| 0 <= i < j < head.len() implies (#[trigger] head[i]).0 != (
        #[trigger] head[j]).0 by {
            assert(groups[i].0 != groups[j].0);
        }
        lemma_fields_of(head, name, value);
        let before = fields_of(head);
        let added = group_fields(last);
        let now = fields_of(groups);
        lemma_group_index(groups, name);
        lemma_group_index(head, name);
        if last.0 == name {
            assert(group_index(head, name) is None) by {
                if let Some(i) = group_index(head, name) {
                    assert(groups[i].0 != groups[groups.len() - 1].0);
                }
            }
            if values_of(groups, name).contains(value) {
                let k = last.1.index_of(value);
                assert(added[k] == (name, value));
                assert(now[before.len() + k] == (name, value));
            }
        }
        if before.contains((name, value)) {
            let k = before.index_of((name, value));
            assert(now[k] == (name, value));
        }
        if now.contains((name, value)) {
            let k = now.index_of((name, value));
            if k < before.len() {
                assert(before[k] == (name, value));
            } else {
                assert(added[k - before.len()] == (name, value));
                assert(last.1[k - before.len()] == value);
            }
        }
    }
}

/// What the `Connection` fields list.
proof fn lemma_connection_names(fields: Seq<(Seq<char>, Seq<u8>)>)
    ensures
        forall|t: Seq<char>| #[trigger]
            connection_names(fields).contains(t) <==> exists|f: int|
                0 <= f < fields.len() && (#[trigger] fields[f]).0 == "connection"@ && visible(
                    fields[f].1,
                ) && list_items(ascii_text(fields[f].1)).contains(t),
    decreases fields.len(),
{
    let now = connection_names(fields);
    if fields.len() == 0 {
        assert forall|t: Seq<char>| !(#[trigger] now.contains(t)) by {}
    } else {
        let head = fields.drop_last();
        let last = fields.last();
        lemma_connection_names(head);
        let before = connection_names(head);
        assert forall|t: Seq<char>| #[trigger] now.contains(t) <==> exists|f: int|
            0 <= f < fields.len() && (#[trigger] fields[f]).0 == "connection"@ && visible(fields[f].1)
                && list_items(ascii_text(fields[f].1)).contains(t) by {
            let items = list_items(ascii_text(last.1));
            if before.contains(t) {
                let k = before.index_of(t);
                assert(now[k] == t);
                let f = choose|f: int|
                    0 <= f < head.len() && (#[trigger] head[f]).0 == "connection"@ && visible(
                        head[f].1,
                    ) && list_items(ascii_text(head[f].1)).contains(t);
                assert(fields[f] == head[f]);
            }
            if now.contains(t) && !before.contains(t) {
                let k = now.index_of(t);
                if k < before.len() {
                    assert(before[k] == t);
                } else {
                    assert(items[k - before.len()] == t);
                    assert(fields[fields.len() - 1] == last);
                }
            }
            if exists|f: int|
                0 <= f < fields.len() && (#[trigger] fields[f]).0 == "connection"@ && visible(
                    fields[f].1,
                ) && list_items(ascii_text(fields[f].1)).contains(t) {
                let f = choose|f: int|
                    0 <= f < fields.len() && (#[trigger] fields[f]).0 == "connection"@ && visible(
                        fields[f].1,
                    ) && list_items(ascii_text(fields[f].1)).contains(t);
                if f < fields.len() - 1 {
                    assert(head[f] == fields[f]);
                } else {
                    let k = items.index_of(t);
                    assert(now[before.len() + k] == t);
                }
            }
        }
    }
}

proof fn lemma_ascii_char(c: char)
    requires
        encode_scalar(c as u32)[0] < 0x80,
    ensures
        encode_scalar(c as u32) == seq![c as u8],
        (c as u8) as char == c,
{
    let s = c as u32;
    assert(leading_byte_width_2(s) >= 0xc0 && leading_byte_width_3(s) >= 0xe0
        && leading_byte_width_4(s) >= 0xf0) by (bit_vector);
    assert(has_width_1_encoding(s) ==> leading_byte_width_1(s) == s) by (bit_vector);
    assert(encode_scalar(s) =~= seq![c as u8]);
}

/// Visible bytes are read as the text that they encode.
proof fn lemma_ascii_text(s: Seq<char>)
    requires
        visible(encode_utf8(s)),
    ensures
        ascii_text(encode_utf8(s)) == s,
    decreases s.len(),
{
    let bytes = encode_utf8(s);
    if s.len() > 0 {
        let rest = s.drop_first();
        let head = encode_scalar(s[0] as u32);
        assert(bytes == head + encode_utf8(rest));
        assert(bytes[0] == head[0]);
        lemma_ascii_char(s[0]);
        assert(visible(encode_utf8(rest))) by {
            assert forall|i: int| 0 <= i < encode_utf8(rest).len() implies 0x20 <= (
            #[trigger] encode_utf8(rest)[i]) <= 0x7e || encode_utf8(rest)[i] == 0x09 by {
                assert(bytes[1 + i] == encode_utf8(rest)[i]);
            }
        }
        lemma_ascii_text(rest);
        assert(ascii_text(bytes) =~= seq![s[0]] + ascii_text(encode_utf8(rest)));
        assert(seq![s[0]] + rest =~= s);
    } else {
        assert(ascii_text(bytes) =~= s);
    }
}

/// What the header lines of a response take away from it.
proof fn lemma_listed(lines: Seq<(Seq<char>, Seq<char>)>, name: Seq<char>)
    ensures
        ({
            let names = hop_by_hop(sent_groups(lines));
            (exists|i: int| 0 <= i < names.len() && lower(#[trigger] names[i]) == name) <==> one_hop(
                name,
            ) || listed(lines, name)
        }),
{
    let groups = sent_groups(lines);
    let fields = fields_of(groups);
    let tokens = connection_names(fields);
    let names = hop_by_hop(groups);
    let conn = "connection"@;
    reveal_strlit("connection");
    reveal_strlit("x-accel-buffering");
    lemma_lookup(conn);
    lemma_sent(lines, conn);
    lemma_line_values(lines, conn);
    lemma_line_values_hold(lines, conn);
    lemma_connection_names(fields);
    lemma_hop_names(name);
    let fixed = hop_names();
    if exists|i: int| 0 <= i < names.len() && lower(#[trigger] names[i]) == name {
        let i = choose|i: int| 0 <= i < names.len() && lower(#[trigger] names[i]) == name;
        if i >= tokens.len() {
            assert(fixed[i - tokens.len()] == names[i]);
        } else {
            let t = tokens[i];
            assert(tokens.contains(t));
            let f = choose|f: int|
                0 <= f < fields.len() && (#[trigger] fields[f]).0 == conn && visible(fields[f].1)
                    && list_items(ascii_text(fields[f].1)).contains(t);
            assert(fields.contains((conn, fields[f].1)));
            lemma_fields_of(groups, conn, fields[f].1);
            let j = choose|j: int|
                0 <= j < lines.len() && valid_name((#[trigger] lines[j]).0) && valid_value(
                    encode_utf8(lines[j].1),
                ) && lower(lines[j].0) == conn && encode_utf8(lines[j].1) == fields[f].1;
            lemma_ascii_text(lines[j].1);
            let k = list_items(lines[j].1).index_of(t);
            assert(lists(lines, j, k, name));
        }
    }
    if one_hop(name) {
        let i = choose|i: int| 0 <= i < fixed.len() && lower(#[trigger] fixed[i]) == name;
        assert(names[tokens.len() + i] == fixed[i]);
    }
    if listed(lines, name) {
        let (j, k) = choose|j: int, k: int| lists(lines, j, k, name);
        let v = encode_utf8(lines[j].1);
        lemma_same_name(conn, lines[j].0);
        assert(valid_value(v));
        lemma_fields_of(groups, conn, v);
        let f = fields.index_of((conn, v));
        lemma_ascii_text(lines[j].1);
        let t = trimmed(split(lines[j].1, ',')[k]);
        assert(list_items(lines[j].1)[k] == t);
        assert(fields[f].0 == conn);
        assert(tokens.contains(t));
        let i = tokens.index_of(t);
        assert(names[i] == t);
    }
}

proof fn lemma_hop_names(name: Seq<char>)
    ensures
        (exists|i: int| 0 <= i < hop_names().len() && lower(#[trigger] hop_names()[i]) == name)
            <==> one_hop(name),
{
    reveal_strlit("connection");
    reveal_strlit("keep-alive");
    reveal_strlit("proxy-authenticate");
    reveal_strlit("proxy-authorization");
    reveal_strlit("proxy-connection");
    reveal_strlit("te");
    reveal_strlit("trailer");
    reveal_strlit("transfer-encoding");
    reveal_strlit("upgrade");
    lemma_lookup("connection"@);
    lemma_lookup("keep-alive"@);
    lemma_lookup("proxy-authenticate"@);
    lemma_lookup("proxy-authorization"@);
    lemma_lookup("proxy-connection"@);
    lemma_lookup("te"@);
    lemma_lookup("trailer"@);
    lemma_lookup("transfer-encoding"@);
    lemma_lookup("upgrade"@);
    let fixed = hop_names();
    assert(fixed[0] == "connection"@ && fixed[1] == "keep-alive"@ && fixed[2] == "proxy-authenticate"@
        && fixed[3] == "proxy-authorization"@ && fixed[4] == "proxy-connection"@ && fixed[5] == "te"@
        && fixed[6] == "trailer"@ && fixed[7] == "transfer-encoding"@ && fixed[8] == "upgrade"@);
    assert(fixed.len() == 9);
}

/// A response has the status that the script gave it and, under every name that is for
/// more than one hop, the value of every valid header line of that name, in their order.
/// Under a name that is for one hop only, or that a `Connection` line lists, it has
/// nothing, nor under `X-Accel-Buffering`.
pub proof fn law_script_headers_reach_the_client(
    r: Response<()>,
    status: u16,
    lines: Seq<(Seq<char>, Seq<char>)>,
    name: Seq<char>,
)
    requires
        is_answer(Ok(r), status, lines),
    ensures
        r.status == status,
        ({
            let dropped = name == "x-accel-buffering"@ || one_hop(name) || listed(lines, name);
            &&& !dropped ==> values_of(header_groups(r.headers), name) == line_values(lines, name)
            &&& dropped ==> values_of(header_groups(r.headers), name).len() == 0
        }),
{
    lemma_listed(lines, name);
    lemma_sent_removed(lines, hop_by_hop(sent_groups(lines)), name);
    if name != "x-accel-buffering"@ {
        lemma_line_values(lines, name);
    } else {
        crate::exchange::law_client_receives(lines, name);
    }
}

/// A valid header line that is for more than one hop stands in the response, whatever its
/// name is.
pub proof fn law_no_header_line_is_lost(
    r: Response<()>,
    status: u16,
    lines: Seq<(Seq<char>, Seq<char>)>,
    i: int,
)
    requires
        is_answer(Ok(r), status, lines),
        0 <= i < lines.len(),
        valid_name(lines[i].0),
        valid_value(encode_utf8(lines[i].1)),
        lower(lines[i].0) != "x-accel-buffering"@,
        !one_hop(lower(lines[i].0)),
        !listed(lines, lower(lines[i].0)),
    ensures
        values_of(header_groups(r.headers), lower(lines[i].0)).contains(encode_utf8(lines[i].1)),
{
    let name = lower(lines[i].0);
    law_script_headers_reach_the_client(r, status, lines, name);
    lemma_line_values_hold(lines, name);
}

/// A response has no header that the script did not write.
pub proof fn law_no_header_is_made_up(
    r: Response<()>,
    status: u16,
    lines: Seq<(Seq<char>, Seq<char>)>,
    name: Seq<char>,
    value: Seq<u8>,
)
    requires
        is_answer(Ok(r), status, lines),
        values_of(header_groups(r.headers), name).contains(value),
    ensures
        exists|i: int|
            0 <= i < lines.len() && lower((#[trigger] lines[i]).0) == name && encode_utf8(lines[i].1)
                == value,
{
    law_script_headers_reach_the_client(r, status, lines, name);
    lemma_line_values_hold(lines, name);
}

/// A head of ordinary size is always answered.
pub proof fn law_ordinary_heads_are_answered(
    r: Result<Response<()>, ProxyError>,
    status: u16,
    lines: Seq<(Seq<char>, Seq<char>)>,
)
    requires
        is_answer(r, status, lines),
        lines.len() <= 6553,
    ensures
        r is Ok,
{
    lemma_few_names(lines);
}

proof fn lemma_few_names(lines: Seq<(Seq<char>, Seq<char>)>)
    ensures
        sent_groups(lines).len() <= lines.len(),
    decreases lines.len(),
{
    if lines.len() > 0 {
        lemma_few_names(lines.drop_last());
        lemma_group_index(sent_groups(lines.drop_last()), lower(lines.last().0));
    }
}

/// Which responses may have a body: none to `HEAD` and none of the statuses below 200, 204
/// and 304, nor one that opens a tunnel; every other may, and a `Content-Length` may stand
/// wherever a body may and in the answer to `HEAD`.
pub proof fn law_bodies(method: Seq<char>, status: u16)
    requires
        100 <= status,
    ensures
        body_allowed(method, status) <==> method != "HEAD"@ && length_allowed(method, status),
        status < 200 || status == 204 || status == 304 ==> !length_allowed(method, status),
        method == "CONNECT"@ && 200 <= status < 300 ==> !length_allowed(method, status),
        method != "CONNECT"@ && 200 <= status && status != 204 && status != 304 ==> length_allowed(
            method,
            status,
        ),
        300 <= status && status != 304 ==> length_allowed(method, status),
{
}

/// The lines of a drained response stay as they are; only the answer to `HEAD` gets one
/// more, where it may have a length and has none: the number of bytes that were drained.
pub proof fn law_lengths_are_added_to_head_only(
    lines: Seq<(Seq<char>, Seq<char>)>,
    method: Seq<char>,
    status: u16,
    body_len: u64,
)
    ensures
        ({
            let after = with_length(lines, method, status, body_len);
            let measured = exists|i: int|
                0 <= i < lines.len() && lower((#[trigger] lines[i]).0) == "content-length"@;
            let added = method == "HEAD"@ && length_allowed(method, status) && !measured;
            &&& !added ==> after == lines
            &&& added ==> {
                &&& after.len() == lines.len() + 1
                &&& after.drop_last() == lines
                &&& lower(after.last().0) == "content-length"@
                &&& number(after.last().1) == body_len
                &&& after.last().1.len() > 0
                &&& forall|i: int|
                    0 <= i < after.last().1.len() ==> '0' <= (#[trigger] after.last().1[i]) <= '9'
            }
        }),
{
    reveal_strlit("Content-Length");
    reveal_strlit("content-length");
    assert(lower("Content-Length"@) =~= "content-length"@);
    crate::laws::text::law_decimals_read_back(body_len as nat);
    let after = with_length(lines, method, status, body_len);
    if after.len() > lines.len() {
        assert(after.drop_last() =~= lines);
    }
}

/// What is handed to the parser of the head.
pub open spec fn fed(actions: Seq<Action>) -> Seq<u8>
    decreases actions.len(),
{
    if actions.len() == 0 {
        Seq::empty()
    } else {
        match actions.last() {
            Action::Feed(bytes) => fed(actions.drop_last()) + bytes@,
            _ => fed(actions.drop_last()),
        }
    }
}

/// Until the head is complete, its parser is handed what the script writes, byte for byte
/// and in order, and nothing else.
pub proof fn law_the_parser_is_fed_what_the_script_wrote(
    states: Seq<Exchange>,
    method: Seq<char>,
    events: Seq<Event>,
    actions: Seq<Action>,
)
    requires
        is_run(states, method, events, actions),
        forall|i: int|
            0 <= i < events.len() ==> ((#[trigger] states[i]) is AwaitRecord && events[i] is Record)
                || (states[i] is AwaitFeed && events[i] == Event::Fed(HeadFeed::Pending)),
    ensures
        fed(actions) == written(events),
    decreases events.len(),
{
    if events.len() > 0 {
        crate::exchange::lemma_shorter_run(states, method, events, actions);
        let s = states.drop_last();
        let e = events.drop_last();
        assert forall|i: int| 0 <= i < e.len() implies ((#[trigger] s[i]) is AwaitRecord && e[i] is Record)
            || (s[i] is AwaitFeed && e[i] == Event::Fed(HeadFeed::Pending)) by {
            assert(s[i] == states[i] && e[i] == events[i]);
        }
        law_the_parser_is_fed_what_the_script_wrote(s, method, e, actions.drop_last());
        let n = events.len() - 1;
        assert(states[n] is AwaitRecord || states[n] is AwaitFeed);
    }
}

/// Whether an exchange waits for a record.
pub open spec fn waits(from: Exchange) -> bool {
    from is AwaitRecord || from is Relay || from is Drain
}

/// Error output is logged whenever it comes, as it comes, and changes nothing; records of
/// no concern to a response change nothing either.
pub proof fn law_error_output_is_logged(
    from: Exchange,
    method: Seq<char>,
    kind: RecordType,
    content: Vec<u8>,
    next: Exchange,
    action: Action,
)
    requires
        waits(from),
        exchange_step(from, method, Event::Record(kind, content), next, action),
    ensures
        kind is Stderr ==> next == from && action == if content@.len() > 0 {
            Action::Log(content)
        } else {
            Action::Read
        },
        !(kind is Stderr || kind is Stdout || kind is EndRequest) ==> next == from && action is Read,
{
}

/// The end of the request ends the response: one that is relayed is closed, and the rest of
/// the request body still read; any other is answered now.
pub proof fn law_the_end_ends_the_response(
    from: Exchange,
    method: Seq<char>,
    content: Vec<u8>,
    next: Exchange,
    action: Action,
)
    requires
        waits(from),
        exchange_step(from, method, Event::Record(RecordType::EndRequest, content), next, action),
    ensures
        from is Relay ==> next is Closed && action == (Action::Close { wind_down: true }),
        from is AwaitRecord ==> next is AwaitFinish && action is Finish,
        from is Drain ==> next is Closed && action is Settle,
{
}

/// What the parser gives up at the end of the request is answered as it is.
pub proof fn law_what_is_there_is_answered(
    method: Seq<char>,
    head: Head,
    next: Exchange,
    action: Action,
)
    requires
        exchange_step(Exchange::AwaitFinish, method, Event::Finished(head), next, action),
        head.headers@.len() <= 6553,
    ensures
        next is Closed,
        action is Settle,
        action->Settle_0 is Ok,
        action->Settle_0->Ok_0.status == head.status,
        is_answer(action->Settle_0, head.status, line_views(head.headers@)),
{
    law_ordinary_heads_are_answered(action->Settle_0, head.status, line_views(head.headers@));
}

/// A failure of the backend is passed on as it is: as the answer, where there is none yet,
/// and else by breaking the body off.
pub proof fn law_failures_are_passed_on(
    from: Exchange,
    method: Seq<char>,
    e: ProxyError,
    next: Exchange,
    action: Action,
)
    requires
        waits(from),
        exchange_step(from, method, Event::ReadFailed(e), next, action),
    ensures
        next is Closed,
        !(from is Relay) ==> action == Action::Fail(e),
        from is Relay ==> action is Break && action->Break_0@ == error_text(e),
{
}

/// A complete head is answered with its status and its headers, and the body begins with
/// what came with it; where no body may follow, the head is held back.
pub proof fn law_complete_heads(method: Seq<char>, head: Head, next: Exchange, action: Action)
    requires
        exchange_step(
            Exchange::AwaitFeed,
            method,
            Event::Fed(HeadFeed::Complete(head)),
            next,
            action,
        ),
        head.headers@.len() <= 6553,
    ensures
        body_allowed(method, head.status) ==> {
            &&& next is Relay
            &&& action is Stream
            &&& action->response.status == head.status
            &&& is_answer(Ok(action->response), head.status, line_views(head.headers@))
            &&& head.body_remainder@.len() == 0 ==> action->first is None
            &&& head.body_remainder@.len() > 0 ==> action->first is Some && action->first->0@
                == head.body_remainder@
        },
        !body_allowed(method, head.status) ==> next == (Exchange::Drain { head, discarded: 0 })
            && action is Read,
{
    if body_allowed(method, head.status) && action is Fail {
        law_ordinary_heads_are_answered(
            Err(action->Fail_0),
            head.status,
            line_views(head.headers@),
        );
    }
}

/// A body that no one receives is read up to eight mebibytes; past that the response is
/// answered without waiting for its end.
pub proof fn law_draining_is_bounded(
    method: Seq<char>,
    head: Head,
    discarded: u64,
    content: Vec<u8>,
    next: Exchange,
    action: Action,
)
    requires
        exchange_step(
            Exchange::Drain { head, discarded },
            method,
            Event::Record(RecordType::Stdout, content),
            next,
            action,
        ),
        head.headers@.len() <= 6553,
    ensures
        discarded + content@.len() > 8 * 1024 * 1024 ==> next is Closed && action is Settle
            && action->Settle_0 is Ok && is_answer(
            action->Settle_0,
            head.status,
            line_views(head.headers@),
        ),
        discarded + content@.len() <= 8 * 1024 * 1024 ==> action is Read && next == (Exchange::Drain {
            head,
            discarded: (discarded + content@.len()) as u64,
        }),
{
    if discarded + content@.len() > 8 * 1024 * 1024 {
        law_ordinary_heads_are_answered(
            action->Settle_0,
            head.status,
            line_views(head.headers@),
        );
    }
}

/// The end of a drained response answers it with its status and its header lines, and to
/// `HEAD` with the length of all that was drained and all that had come with the head.
pub proof fn law_drained_responses_are_answered(
    method: Seq<char>,
    head: Head,
    discarded: u64,
    content: Vec<u8>,
    next: Exchange,
    action: Action,
)
    requires
        exchange_step(
            Exchange::Drain { head, discarded },
            method,
            Event::Record(RecordType::EndRequest, content),
            next,
            action,
        ),
        discarded + head.body_remainder@.len() <= u64::MAX,
    ensures
        next is Closed,
        action is Settle,
        is_answer(
            action->Settle_0,
            head.status,
            with_length(
                line_views(head.headers@),
                method,
                head.status,
                (discarded + head.body_remainder@.len()) as u64,
            ),
        ),
{
}

/// Before the head is complete, every piece of output goes to its parser as it is; the next
/// one is read where the parser wants more, and a head that is too long fails the request.
pub proof fn law_heads_are_read(
    method: Seq<char>,
    content: Vec<u8>,
    feed: HeadFeed,
    next: Exchange,
    action: Action,
)
    ensures
        exchange_step(
            Exchange::AwaitRecord,
            method,
            Event::Record(RecordType::Stdout, content),
            next,
            action,
        ) ==> next is AwaitFeed && action == Action::Feed(content),
        exchange_step(Exchange::AwaitFeed, method, Event::Fed(feed), next, action) ==> {
            &&& feed is Pending ==> next is AwaitRecord && action is Read
            &&& feed is TooLarge ==> next is Closed && action is Fail
                && action->Fail_0 is BackendProtocol && action->Fail_0->BackendProtocol_source@
                == "FPM response head exceeded the size limit"@
        },
{
}

/// While a body is relayed, every piece of output that holds something is sent as it is, and
/// the exchange goes on.
pub proof fn law_bodies_are_relayed(
    method: Seq<char>,
    content: Vec<u8>,
    next: Exchange,
    action: Action,
)
    requires
        exchange_step(
            Exchange::Relay,
            method,
            Event::Record(RecordType::Stdout, content),
            next,
            action,
        ),
    ensures
        next is Relay,
        content@.len() > 0 ==> action == Action::Send(content),
        content@.len() == 0 ==> action is Read,
{
}

/// What comes when nothing is waited for closes the exchange, and nothing is read after it.
pub proof fn law_closed_exchanges_stay_closed(
    method: Seq<char>,
    event: Event,
    next: Exchange,
    action: Action,
)
    requires
        exchange_step(Exchange::Closed, method, event, next, action),
    ensures
        next is Closed,
        action == (Action::Close { wind_down: false }),
{
}

/// A client that has gone ends the exchange wherever it stands.
pub proof fn law_clients_may_leave(from: Exchange, method: Seq<char>, next: Exchange, action: Action)
    requires
        exchange_step(from, method, Event::ClientGone, next, action),
    ensures
        next is Closed,
        action == (Action::Close { wind_down: false }),
{
}

} // verus!
