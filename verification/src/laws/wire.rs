//! Laws of [`fcgi_codec`](crate::fcgi_codec) and [`fcgi`](crate::fcgi): what stands on the
//! wire, byte by byte.

use vstd::prelude::*;

use crate::error::ProxyError;
use crate::fcgi::{
    chunk_records, is_prelude, is_record_head, is_written, law_record_round_trip,
    law_stream_round_trip, lemma_stream_end, lemma_stream_piece, prelude_bytes, record_bytes,
    record_header, record_of, stream_bytes, stream_of, whole, with_records, BodyAction, BodyEvent,
};
use crate::fcgi_codec::{
    begin_request_body, header_bytes, header_of, law_pairs_round_trip, length_bytes, pair_bytes,
    pair_fits, pairs_bytes, pairs_of, type_code, type_of_code, FcgiError, Header, RecordType,
    FCGI_MAX_PAYLOAD,
};

verus! {

/// A record header is eight bytes: version, type, request number, content length, padding
/// length and a zero, the two numbers with their high byte first.
pub proof fn law_header_layout(h: Header)
    ensures
        header_bytes(h).len() == 8,
        header_bytes(h)[0] == h.version,
        header_bytes(h)[1] == type_code(h.record_type),
        header_bytes(h)[2] * 256 + header_bytes(h)[3] == h.request_id,
        header_bytes(h)[4] * 256 + header_bytes(h)[5] == h.content_length,
        header_bytes(h)[6] == h.padding_length,
        header_bytes(h)[7] == 0,
{
}

/// A header is read exactly where eight bytes are there, of version 1 and of a type that
/// the protocol has.
pub proof fn law_headers_are_read(bytes: Seq<u8>)
    ensures
        header_of(bytes) is Ok <==> bytes.len() >= 8 && bytes[0] == 1 && 1 <= bytes[1] <= 11,
        header_of(bytes) is Ok ==> {
            let h = header_of(bytes)->Ok_0;
            &&& h.version == bytes[0]
            &&& type_code(h.record_type) == bytes[1]
            &&& h.request_id == bytes[2] * 256 + bytes[3]
            &&& h.content_length == bytes[4] * 256 + bytes[5]
            &&& h.padding_length == bytes[6]
        },
        bytes.len() < 8 ==> header_of(bytes) == Err::<Header, FcgiError>(FcgiError::Truncated),
        bytes.len() >= 8 && bytes[0] != 1 ==> header_of(bytes) == Err::<Header, FcgiError>(
            FcgiError::UnsupportedVersion(bytes[0]),
        ),
{
}

/// The numbers of the record types are those of the protocol.
pub proof fn law_record_types(t: RecordType, code: u8)
    ensures
        type_code(RecordType::BeginRequest) == 1,
        type_code(RecordType::AbortRequest) == 2,
        type_code(RecordType::EndRequest) == 3,
        type_code(RecordType::Params) == 4,
        type_code(RecordType::Stdin) == 5,
        type_code(RecordType::Stdout) == 6,
        type_code(RecordType::Stderr) == 7,
        type_code(RecordType::Data) == 8,
        type_code(RecordType::GetValues) == 9,
        type_code(RecordType::GetValuesResult) == 10,
        type_code(RecordType::UnknownType) == 11,
        type_of_code(type_code(t)) == Some(t),
        type_of_code(code) is Some ==> type_code(type_of_code(code)->0) == code,
        type_of_code(code) is Some <==> 1 <= code <= 11,
{
}

/// A record is its header and its content, nothing in between and nothing behind; it is of
/// version 1, belongs to request 1 and is not padded.
pub proof fn law_record_layout(t: RecordType, content: Seq<u8>)
    requires
        content.len() <= 65535,
    ensures
        record_bytes(t, content).len() == 8 + content.len(),
        record_bytes(t, content).skip(8) == content,
        record_bytes(t, content)[0] == 1,
        record_bytes(t, content)[1] == type_code(t),
        record_bytes(t, content)[2] == 0,
        record_bytes(t, content)[3] == 1,
        record_bytes(t, content)[4] * 256 + record_bytes(t, content)[5] == content.len(),
        record_bytes(t, content)[6] == 0,
        record_bytes(t, content)[7] == 0,
{
    let h = record_header(t, content.len());
    law_header_layout(h);
    let bytes = record_bytes(t, content);
    assert(bytes.skip(8) =~= content);
    assert(forall|i: int| 0 <= i < 8 ==> bytes[i] == header_bytes(h)[i]);
}

/// The same type for every content.
pub open spec fn all_of(t: RecordType, contents: Seq<Seq<u8>>) -> Seq<(RecordType, Seq<u8>)> {
    contents.map_values(|c: Seq<u8>| (t, c))
}

/// Whether `contents` are the contents of the records that `data` goes out in: none is
/// empty or too long, and together they are the data.
pub open spec fn cut_of(data: Seq<u8>, contents: Seq<Seq<u8>>) -> bool {
    &&& whole(contents) == data
    &&& forall|i: int| 0 <= i < contents.len() ==> 0 < (#[trigger] contents[i]).len() <= 65535
}

/// Data goes out in records of its type, none of them empty or longer than a record can
/// be, whose contents are the data, whole and in order.
pub proof fn law_data_goes_out_whole(t: RecordType, data: Seq<u8>)
    ensures
        exists|contents: Seq<Seq<u8>>| #[trigger]
            cut_of(data, contents) && chunk_records(t, data) == with_records(
                Seq::empty(),
                all_of(t, contents),
            ),
        stream_bytes(t, data) == chunk_records(t, data) + record_bytes(t, Seq::empty()),
{
    let contents = lemma_cut(t, data);
    assert(cut_of(data, contents));
}

proof fn lemma_cut(t: RecordType, data: Seq<u8>) -> (contents: Seq<Seq<u8>>)
    ensures
        cut_of(data, contents),
        chunk_records(t, data) == with_records(Seq::empty(), all_of(t, contents)),
    decreases data.len(),
{
    let none = Seq::<u8>::empty();
    if data.len() == 0 {
        let contents = Seq::<Seq<u8>>::empty();
        assert(whole(contents) =~= data);
        assert(all_of(t, contents) =~= Seq::empty());
        assert(chunk_records(t, data) =~= none);
        contents
    } else {
        let n: int = if data.len() <= FCGI_MAX_PAYLOAD {
            data.len() as int
        } else {
            FCGI_MAX_PAYLOAD as int
        };
        let first = data.take(n);
        let rest = data.skip(n);
        let more = lemma_cut(t, rest);
        let contents = seq![first] + more;
        lemma_whole_first(first, more);
        lemma_with_first(t, first, more);
        assert(first + rest =~= data);
        if data.len() <= FCGI_MAX_PAYLOAD {
            assert(first =~= data);
            assert(chunk_records(t, rest) =~= none);
            assert(record_bytes(t, first) + none =~= record_bytes(t, first));
        }
        assert forall|i: int| 0 <= i < contents.len() implies 0 < (#[trigger] contents[i]).len()
            <= 65535 by {
            if i > 0 {
                assert(contents[i] == more[i - 1]);
            }
        }
        contents
    }
}

proof fn lemma_whole_first(first: Seq<u8>, more: Seq<Seq<u8>>)
    ensures
        whole(seq![first] + more) == first + whole(more),
{
    assert((seq![first] + more).skip(1) =~= more);
}

proof fn lemma_with_first(t: RecordType, first: Seq<u8>, more: Seq<Seq<u8>>)
    ensures
        with_records(Seq::empty(), all_of(t, seq![first] + more)) == record_bytes(t, first)
            + with_records(Seq::empty(), all_of(t, more)),
    decreases more.len(),
{
    let none = Seq::<u8>::empty();
    let all = all_of(t, seq![first] + more);
    if more.len() == 0 {
        assert(all.drop_last() =~= Seq::empty());
        assert(all.last() == (t, first));
        assert(all_of(t, more) =~= Seq::empty());
        assert(with_records(none, all.drop_last()) == none);
        assert(with_records(none, all) == none + record_bytes(t, first));
        assert(with_records(none, all) =~= record_bytes(t, first) + none);
    } else {
        lemma_with_first(t, first, more.drop_last());
        assert(all.drop_last() =~= all_of(t, seq![first] + more.drop_last()));
        assert(all_of(t, more).drop_last() =~= all_of(t, more.drop_last()));
        assert(all.last() == (t, more.last()));
        assert(with_records(none, all) =~= record_bytes(t, first) + with_records(
            none,
            all_of(t, more),
        ));
    }
}

/// Records that are written one after another stand one after another.
pub proof fn law_records_stand_in_a_row(
    out: Seq<u8>,
    records: Seq<(RecordType, Seq<u8>)>,
    t: RecordType,
    content: Seq<u8>,
)
    ensures
        with_records(out, Seq::empty()) == out,
        with_records(out, records.push((t, content))) == with_records(out, records) + record_bytes(
            t,
            content,
        ),
{
    assert(records.push((t, content)).drop_last() =~= records);
}

/// A length below 128 is one byte; any other is four, the first with its top bit set and
/// the high ones first.
pub proof fn law_length_layout(n: nat)
    requires
        n <= 0x7fff_ffff,
    ensures
        n < 128 ==> length_bytes(n).len() == 1 && length_bytes(n)[0] == n,
        n >= 128 ==> {
            let b = length_bytes(n);
            &&& b.len() == 4
            &&& b[0] >= 128
            &&& (b[0] - 128) * 0x100_0000 + b[1] * 0x1_0000 + b[2] * 0x100 + b[3] == n
        },
{
    reveal(length_bytes);
}

/// A pair is both lengths, the name and the value; every pair that the protocol can carry
/// can be written.
pub proof fn law_pair_layout(name: Seq<u8>, value: Seq<u8>)
    ensures
        pair_bytes(name, value) == length_bytes(name.len()) + length_bytes(value.len()) + name + value,
        pair_fits(name, value) <==> name.len() <= 0x7fff_ffff && value.len() <= 0x7fff_ffff,
{
}

/// Pairs that are written one after another stand one after another.
pub proof fn law_pairs_stand_in_a_row(ps: Seq<(Seq<u8>, Seq<u8>)>, p: (Seq<u8>, Seq<u8>))
    ensures
        pairs_bytes(Seq::empty()).len() == 0,
        pairs_bytes(ps.push(p)) == pairs_bytes(ps) + pair_bytes(p.0, p.1),
{
    crate::fcgi_codec::lemma_pairs_push(ps, p);
}

/// A request begins with the record that opens it, for a responder and on a connection
/// that is closed afterwards; then come its parameters.
pub proof fn law_requests_begin(params: Seq<(Seq<u8>, Seq<u8>)>, role: u16, keep: bool)
    ensures
        begin_request_body(role, keep).len() == 8,
        begin_request_body(role, keep)[0] * 256 + begin_request_body(role, keep)[1] == role,
        begin_request_body(role, keep)[2] == if keep {
            1u8
        } else {
            0u8
        },
        prelude_bytes(params).take(16) == seq![
            1u8, 1, 0, 1, 0, 8, 0, 0,
            0, 1, 0, 0, 0, 0, 0, 0,
        ],
        prelude_bytes(params).skip(16) == stream_bytes(RecordType::Params, pairs_bytes(params)),
{
    let body = begin_request_body(1, false);
    let open = record_bytes(RecordType::BeginRequest, body);
    law_record_layout(RecordType::BeginRequest, body);
    assert(open =~= seq![1u8, 1, 0, 1, 0, 8, 0, 0, 0, 1, 0, 0, 0, 0, 0, 0]) by {
        assert forall|i: int| 8 <= i < 16 implies open[i] == body[i - 8] by {
            assert(open.skip(8)[i - 8] == body[i - 8]);
        }
    }
    let whole = prelude_bytes(params);
    assert(whole.take(16) =~= open);
    assert(whole.skip(16) =~= stream_bytes(RecordType::Params, pairs_bytes(params)));
}

/// The header of a record of this request is taken as it is; one of another request is
/// refused by its number, and bytes that are no header by what is wrong with them.
pub proof fn law_record_heads(bytes: Seq<u8>, r: Result<Header, ProxyError>)
    requires
        is_record_head(bytes, r),
    ensures
        r is Ok <==> header_of(bytes) is Ok && bytes[2] == 0 && bytes[3] == 1,
        r is Ok ==> r->Ok_0 == header_of(bytes)->Ok_0,
        r is Err ==> r->Err_0 is Fcgi,
        header_of(bytes) is Ok && r is Err ==> r->Err_0->Fcgi_source
            == FcgiError::UnexpectedRequestId((bytes[2] * 256 + bytes[3]) as u16),
        header_of(bytes) is Err ==> r->Err_0->Fcgi_source == header_of(bytes)->Err_0,
{
    law_headers_are_read(bytes);
}

/// What goes out for a row of pieces of the request body.
pub open spec fn written(actions: Seq<BodyAction>) -> Seq<u8>
    decreases actions.len(),
{
    if actions.len() == 0 {
        Seq::empty()
    } else {
        let rest = written(actions.skip(1));
        match actions[0] {
            BodyAction::Write(bytes) => bytes@ + rest,
            BodyAction::Finish(bytes) => bytes@ + rest,
            _ => rest,
        }
    }
}

/// What a row of pieces of the request body holds.
pub open spec fn held(events: Seq<BodyEvent>) -> Seq<u8>
    decreases events.len(),
{
    if events.len() == 0 {
        Seq::empty()
    } else {
        let rest = held(events.skip(1));
        match events[0] {
            BodyEvent::Data(data) => data@ + rest,
            _ => rest,
        }
    }
}

/// A request body that came to its end is read back as the whole of what it held, however it
/// came; and one that broke off is not ended, but given up for its reason.
pub proof fn law_request_bodies_are_written(
    events: Seq<BodyEvent>,
    actions: Seq<BodyAction>,
    rest: Seq<u8>,
)
    requires
        events.len() > 0,
        actions.len() == events.len(),
        forall|i: int| 0 <= i < events.len() ==> is_written(#[trigger] events[i], actions[i]),
        forall|i: int|
            0 <= i < events.len() - 1 ==> (#[trigger] events[i]) is Data || events[i] is Trailers,
    ensures
        events.last() is End ==> actions.last() is Finish && stream_of(
            RecordType::Stdin,
            written(actions) + rest,
        ) == Some((held(events), rest)),
        events.last() is Failed ==> actions.last() == BodyAction::Shutdown(events.last()->Failed_0),
    decreases events.len(),
{
    assert(is_written(events[0], actions[0]));
    assert(is_written(events.last(), actions.last()));
    if events.last() is End {
        let more = events.skip(1);
        let then = actions.skip(1);
        if events.len() == 1 {
            assert(written(then) =~= Seq::empty());
            assert(held(more) =~= Seq::empty());
            lemma_stream_end(RecordType::Stdin, rest);
            assert(record_bytes(RecordType::Stdin, Seq::empty()) + Seq::<u8>::empty() =~= record_bytes(
                RecordType::Stdin,
                Seq::empty(),
            ));
        } else {
            assert forall|i: int| 0 <= i < more.len() implies is_written(#[trigger] more[i], then[i]) by {
                assert(is_written(events[i + 1], actions[i + 1]));
            }
            assert forall|i: int| 0 <= i < more.len() - 1 implies (#[trigger] more[i]) is Data
                || more[i] is Trailers by {
                assert(events[i + 1] is Data || events[i + 1] is Trailers);
            }
            law_request_bodies_are_written(more, then, rest);
            if let BodyEvent::Data(data) = events[0] {
                lemma_stream_piece(
                    RecordType::Stdin,
                    data@,
                    written(then) + rest,
                    held(more),
                    rest,
                );
                let out = chunk_records(RecordType::Stdin, data@);
                assert(out + (written(then) + rest) =~= (out + written(then)) + rest);
            }
        }
    }
}

/// The parameters that a request opens with, read back from its bytes.
pub open spec fn opened(bytes: Seq<u8>) -> Option<Seq<(Seq<u8>, Seq<u8>)>> {
    match record_of(bytes) {
        Some((_, _, pairs)) => match stream_of(RecordType::Params, pairs) {
            Some((data, _)) => pairs_of(data),
            None => None,
        },
        None => None,
    }
}

/// A request opens with its parameters, all of them and as they are; it does not where a
/// name or a value is longer than the wire can say.
pub proof fn law_requests_open_with_their_params(
    r: Result<Vec<u8>, ProxyError>,
    params: Seq<(Seq<u8>, Seq<u8>)>,
)
    requires
        is_prelude(r, params),
    ensures
        r is Ok <==> forall|i: int|
            0 <= i < params.len() ==> (#[trigger] params[i]).0.len() <= 0x7fff_ffff
                && params[i].1.len() <= 0x7fff_ffff,
        r is Ok ==> opened(r->Ok_0@) == Some(params),
        r is Err ==> r->Err_0 is Fcgi && r->Err_0->Fcgi_source == FcgiError::PairTooLong,
{
    if r is Ok {
        let begin = begin_request_body(1, false);
        let pairs = stream_bytes(RecordType::Params, pairs_bytes(params));
        law_record_round_trip(RecordType::BeginRequest, begin, pairs);
        law_stream_round_trip(RecordType::Params, pairs_bytes(params), Seq::empty());
        assert(pairs + Seq::<u8>::empty() =~= pairs);
        law_pairs_round_trip(params);
    }
}

} // verus!
