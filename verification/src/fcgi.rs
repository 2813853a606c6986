//! A FastCGI request on the wire, and the records that answer it.

use vstd::prelude::*;
use vstd::slice::slice_subrange;

use crate::cgi_params::param_views;
use crate::error::ProxyError;
use crate::fcgi_codec::{
    begin_request_body, encode_begin_request_body, encode_name_value, header_bytes, header_of,
    law_header_round_trip, law_pairs_round_trip, lemma_pairs_push, pair_fits, pairs_bytes,
    pairs_fit, pairs_of, FcgiError, Header, RecordType, FCGI_HEADER_LEN, FCGI_MAX_PAYLOAD,
    FCGI_RESPONDER, FCGI_VERSION,
};

verus! {

/// The request that every record belongs to: a connection carries one.
pub const REQUEST_ID: u16 = 1;

/// The header of a record of this request.
pub open spec fn record_header(record_type: RecordType, len: nat) -> Header {
    Header {
        version: FCGI_VERSION,
        record_type,
        request_id: REQUEST_ID,
        content_length: if len <= FCGI_MAX_PAYLOAD {
            len as u16
        } else {
            u16::MAX
        },
        padding_length: 0,
    }
}

/// A record of this request on the wire.
pub open spec fn record_bytes(record_type: RecordType, content: Seq<u8>) -> Seq<u8> {
    header_bytes(record_header(record_type, content.len())) + content
}

/// `data` on the wire, in records that are full but for the last.
pub open spec fn chunk_records(record_type: RecordType, data: Seq<u8>) -> Seq<u8>
    decreases data.len(),
{
    if data.len() == 0 {
        Seq::empty()
    } else if data.len() <= FCGI_MAX_PAYLOAD {
        record_bytes(record_type, data)
    } else {
        record_bytes(record_type, data.take(FCGI_MAX_PAYLOAD as int)) + chunk_records(
            record_type,
            data.skip(FCGI_MAX_PAYLOAD as int),
        )
    }
}

/// A whole stream on the wire: its data, and the empty record that ends it.
pub open spec fn stream_bytes(record_type: RecordType, data: Seq<u8>) -> Seq<u8> {
    chunk_records(record_type, data) + record_bytes(record_type, Seq::empty())
}

/// What goes out before the request body: the begin record and the parameters.
pub open spec fn prelude_bytes(params: Seq<(Seq<u8>, Seq<u8>)>) -> Seq<u8> {
    record_bytes(RecordType::BeginRequest, begin_request_body(FCGI_RESPONDER, false))
        + stream_bytes(RecordType::Params, pairs_bytes(params))
}

/// Append a record to `out`.
pub fn write_record(out: &mut Vec<u8>, record_type: RecordType, content: &[u8])
    ensures
        final(out)@ == old(out)@ + record_bytes(record_type, content@),
{
    let ghost before = out@;
    let len: u16 = if content.len() <= FCGI_MAX_PAYLOAD {
        content.len() as u16
    } else {
        u16::MAX
    };
    let header: Header = Header {
        version: FCGI_VERSION,
        record_type,
        request_id: REQUEST_ID,
        content_length: len,
        padding_length: 0,
    };
    header.encode(out);
    out.extend_from_slice(content);
    assert(out@ =~= before + record_bytes(record_type, content@));
}

/// Append `data` to `out`, in records that are full but for the last.
fn write_chunks(out: &mut Vec<u8>, record_type: RecordType, data: &[u8])
    ensures
        final(out)@ == old(out)@ + chunk_records(record_type, data@),
{
    let ghost before = out@;
    let mut at: usize = 0;
    assert(data@.skip(0) =~= data@);
    assert(before + chunk_records(record_type, data@) =~= out@ + chunk_records(record_type, data@));
    while at < data.len()
        invariant
            at <= data@.len(),
            before + chunk_records(record_type, data@) == out@ + chunk_records(
                record_type,
                data@.skip(at as int),
            ),
        decreases data@.len() - at,
    {
        let ghost rest = data@.skip(at as int);
        let ghost so_far = out@;
        let n: usize = if data.len() - at <= FCGI_MAX_PAYLOAD {
            data.len() - at
        } else {
            FCGI_MAX_PAYLOAD
        };
        let chunk: &[u8] = slice_subrange(data, at, at + n);
        write_record(out, record_type, chunk);
        proof {
            assert(chunk@ =~= rest.take(n as int));
            assert(rest.skip(n as int) =~= data@.skip(at + n));
            if rest.len() <= FCGI_MAX_PAYLOAD {
                assert(chunk@ =~= rest);
                assert(chunk_records(record_type, data@.skip(at + n)) =~= Seq::empty());
            }
            assert(so_far + chunk_records(record_type, rest) =~= out@ + chunk_records(
                record_type,
                data@.skip(at + n),
            ));
        }
        at = at + n;
    }
    assert(chunk_records(record_type, data@.skip(at as int)) =~= Seq::empty());
    assert(out@ =~= before + chunk_records(record_type, data@));
}

/// Whether `r` is what goes out before the request body: the parameters, or an error where
/// one is too long.
pub open spec fn is_prelude(
    r: Result<Vec<u8>, ProxyError>,
    ps: Seq<(Seq<u8>, Seq<u8>)>,
) -> bool {
    &&& pairs_fit(ps) ==> r is Ok && r->Ok_0@ == prelude_bytes(ps)
    &&& !pairs_fit(ps) ==> r is Err && r->Err_0 is Fcgi && r->Err_0->Fcgi_source
        == FcgiError::PairTooLong
}

/// The bytes that go out before the request body; nothing where a parameter is too
/// long for the wire.
pub fn request_prelude(params: &Vec<(Vec<u8>, Vec<u8>)>) -> (r: Result<Vec<u8>, ProxyError>)
    ensures
        is_prelude(r, param_views(params@)),
{
    let mut param_buf: Vec<u8> = Vec::new();
    let ghost all = param_views(params@);
    let mut i: usize = 0;
    assert(pairs_bytes(all.take(0)) =~= Seq::empty());
    while i < params.len()
        invariant
            i <= params@.len(),
            all == param_views(params@),
            param_buf@ == pairs_bytes(all.take(i as int)),
            forall|j: int| 0 <= j < i ==> pair_fits((#[trigger] all[j]).0, all[j].1),
        decreases params@.len() - i,
    {
        proof {
            assert(all[i as int] == (params@[i as int].0@, params@[i as int].1@));
            lemma_pairs_push(all.take(i as int), all[i as int]);
            assert(all.take(i + 1) =~= all.take(i as int).push(all[i as int]));
        }
        match encode_name_value(params[i].0.as_slice(), params[i].1.as_slice(), &mut param_buf) {
            Ok(()) => {},
            Err(source) => {
                return Err(ProxyError::Fcgi { source });
            },
        }
        i = i + 1;
    }
    assert(all.take(i as int) =~= all);
    let mut prelude: Vec<u8> = Vec::new();
    let body: Vec<u8> = encode_begin_request_body(FCGI_RESPONDER, false);
    write_record(&mut prelude, RecordType::BeginRequest, body.as_slice());
    write_chunks(&mut prelude, RecordType::Params, param_buf.as_slice());
    let empty: Vec<u8> = Vec::new();
    write_record(&mut prelude, RecordType::Params, empty.as_slice());
    assert(empty@ =~= Seq::empty());
    assert(prelude@ =~= prelude_bytes(all));
    Ok(prelude)
}

/// One piece of the request body, as records.
pub fn stdin_records(data: &[u8]) -> (r: Vec<u8>)
    ensures
        r@ == chunk_records(RecordType::Stdin, data@),
{
    let mut r: Vec<u8> = Vec::new();
    write_chunks(&mut r, RecordType::Stdin, data);
    assert(r@ =~= chunk_records(RecordType::Stdin, data@));
    r
}

/// The record that ends the request body.
pub fn stdin_terminator() -> (r: Vec<u8>)
    ensures
        r@ == record_bytes(RecordType::Stdin, Seq::empty()),
{
    let mut r: Vec<u8> = Vec::new();
    let empty: Vec<u8> = Vec::new();
    write_record(&mut r, RecordType::Stdin, empty.as_slice());
    assert(empty@ =~= Seq::empty());
    assert(r@ =~= record_bytes(RecordType::Stdin, Seq::empty()));
    r
}

/// The record that `bytes` begin with, and what follows it.
pub open spec fn record_of(bytes: Seq<u8>) -> Option<(Header, Seq<u8>, Seq<u8>)> {
    match header_of(bytes) {
        Ok(h) => {
            let end = FCGI_HEADER_LEN + h.content_length;
            if bytes.len() >= end + h.padding_length {
                Some((h, bytes.subrange(FCGI_HEADER_LEN as int, end), bytes.skip(end + h.padding_length)))
            } else {
                None
            }
        },
        Err(_) => None,
    }
}

/// The data of the stream that `bytes` begin with, up to the empty record that ends
/// it, and what follows that.
#[verifier::opaque]
pub open spec fn stream_of(record_type: RecordType, bytes: Seq<u8>) -> Option<(Seq<u8>, Seq<u8>)>
    decreases bytes.len(),
{
    match record_of(bytes) {
        Some((h, content, rest)) => if h.record_type != record_type || h.request_id != REQUEST_ID
            || rest.len() >= bytes.len() {
            None
        } else if content.len() == 0 {
            Some((Seq::empty(), rest))
        } else {
            match stream_of(record_type, rest) {
                Some((data, end)) => Some((content + data, end)),
                None => None,
            }
        },
        None => None,
    }
}

/// A record read back is the record written.
pub proof fn law_record_round_trip(record_type: RecordType, content: Seq<u8>, rest: Seq<u8>)
    requires
        content.len() <= FCGI_MAX_PAYLOAD,
    ensures
        record_of(record_bytes(record_type, content) + rest) == Some(
            (record_header(record_type, content.len()), content, rest),
        ),
{
    let h = record_header(record_type, content.len());
    let bytes = record_bytes(record_type, content) + rest;
    assert(bytes =~= header_bytes(h) + (content + rest));
    law_header_round_trip(h, content + rest);
    let end = FCGI_HEADER_LEN + content.len();
    assert(bytes.subrange(FCGI_HEADER_LEN as int, end as int) =~= content);
    assert(bytes.skip(end as int) =~= rest);
}

/// Reading a stream takes one record and then the rest.
proof fn lemma_stream_step(
    record_type: RecordType,
    content: Seq<u8>,
    tail: Seq<u8>,
    data: Seq<u8>,
    end: Seq<u8>,
)
    requires
        0 < content.len() <= FCGI_MAX_PAYLOAD,
        stream_of(record_type, tail) == Some((data, end)),
    ensures
        stream_of(record_type, record_bytes(record_type, content) + tail) == Some(
            (content + data, end),
        ),
{
    reveal(stream_of);
    law_record_round_trip(record_type, content, tail);
}

/// Reading a stream stops at the empty record.
pub proof fn lemma_stream_end(record_type: RecordType, rest: Seq<u8>)
    ensures
        stream_of(record_type, record_bytes(record_type, Seq::empty()) + rest) == Some(
            (Seq::<u8>::empty(), rest),
        ),
{
    reveal(stream_of);
    law_record_round_trip(record_type, Seq::empty(), rest);
}

/// Appending is associative.
proof fn lemma_three(a: Seq<u8>, b: Seq<u8>, c: Seq<u8>)
    ensures
        a + b + c == a + (b + c),
{
    assert(a + b + c =~= a + (b + c));
}

/// A buffer once these records have been appended to it, one after another.
pub open spec fn with_records(out: Seq<u8>, records: Seq<(RecordType, Seq<u8>)>) -> Seq<u8>
    decreases records.len(),
{
    if records.len() == 0 {
        out
    } else {
        with_records(out, records.drop_last()) + record_bytes(records.last().0, records.last().1)
    }
}

/// The records that `bytes` consist of, each with its header; nothing where something
/// else is among them or something is left over.
#[verifier::opaque]
pub open spec fn records_of(bytes: Seq<u8>) -> Option<Seq<(Header, Seq<u8>)>>
    decreases bytes.len(),
{
    if bytes.len() == 0 {
        Some(Seq::empty())
    } else {
        match record_of(bytes) {
            Some((h, content, rest)) => if rest.len() >= bytes.len() {
                None
            } else {
                match records_of(rest) {
                    Some(more) => Some(seq![(h, content)] + more),
                    None => None,
                }
            },
            None => None,
        }
    }
}

/// Records with the headers that they are written under.
pub open spec fn with_headers(records: Seq<(RecordType, Seq<u8>)>) -> Seq<(Header, Seq<u8>)> {
    records.map_values(|r: (RecordType, Seq<u8>)| (record_header(r.0, r.1.len()), r.1))
}

/// Reading records takes the first and then the others.
proof fn lemma_records_step(
    record_type: RecordType,
    content: Seq<u8>,
    tail: Seq<u8>,
    more: Seq<(Header, Seq<u8>)>,
)
    requires
        content.len() <= FCGI_MAX_PAYLOAD,
        records_of(tail) == Some(more),
    ensures
        records_of(record_bytes(record_type, content) + tail) == Some(
            seq![(record_header(record_type, content.len()), content)] + more,
        ),
{
    reveal(records_of);
    law_record_round_trip(record_type, content, tail);
}

/// Records read back are those written, whatever records follow them.
proof fn lemma_records_then(
    records: Seq<(RecordType, Seq<u8>)>,
    tail: Seq<u8>,
    more: Seq<(Header, Seq<u8>)>,
)
    requires
        forall|i: int|
            0 <= i < records.len() ==> (#[trigger] records[i]).1.len() <= FCGI_MAX_PAYLOAD,
        records_of(tail) == Some(more),
    ensures
        records_of(with_records(Seq::empty(), records) + tail) == Some(
            with_headers(records) + more,
        ),
    decreases records.len(),
{
    if records.len() == 0 {
        assert(with_records(Seq::empty(), records) + tail =~= tail);
        assert(with_headers(records) + more =~= more);
    } else {
        let shorter = records.drop_last();
        let (record_type, content) = records.last();
        let last = record_bytes(record_type, content);
        let head = seq![(record_header(record_type, content.len()), content)];
        lemma_records_step(record_type, content, tail, more);
        lemma_records_then(shorter, last + tail, head + more);
        lemma_three(with_records(Seq::empty(), shorter), last, tail);
        assert(with_headers(shorter) + (head + more) =~= with_headers(records) + more);
    }
}

/// Appending records leaves what was there before them as it was.
proof fn lemma_records_after(out: Seq<u8>, records: Seq<(RecordType, Seq<u8>)>)
    ensures
        with_records(out, records) == out + with_records(Seq::empty(), records),
    decreases records.len(),
{
    if records.len() == 0 {
        assert(out + Seq::<u8>::empty() =~= out);
    } else {
        lemma_records_after(out, records.drop_last());
        lemma_three(
            out,
            with_records(Seq::empty(), records.drop_last()),
            record_bytes(records.last().0, records.last().1),
        );
    }
}

/// Records of any types that are appended to a buffer, one after another, leave it as
/// it was and read back as they were written, with nothing left over: each under a
/// header with the protocol's version, this request's number and no padding.
pub proof fn law_records_round_trip(out: Seq<u8>, records: Seq<(RecordType, Seq<u8>)>)
    requires
        forall|i: int|
            0 <= i < records.len() ==> (#[trigger] records[i]).1.len() <= FCGI_MAX_PAYLOAD,
    ensures
        with_records(out, records).len() >= out.len(),
        with_records(out, records).take(out.len() as int) == out,
        records_of(with_records(out, records).skip(out.len() as int)) == Some(
            with_headers(records),
        ),
        forall|i: int|
            0 <= i < records.len() ==> {
                let (h, content) = #[trigger] with_headers(records)[i];
                &&& h.version == FCGI_VERSION
                &&& h.record_type == records[i].0
                &&& h.request_id == REQUEST_ID
                &&& h.content_length == records[i].1.len()
                &&& h.padding_length == 0
                &&& content == records[i].1
            },
{
    let none = Seq::<u8>::empty();
    let wire = with_records(none, records);
    lemma_records_after(out, records);
    assert((out + wire).take(out.len() as int) =~= out);
    assert((out + wire).skip(out.len() as int) =~= wire + none);
    assert(records_of(none) == Some(Seq::<(Header, Seq<u8>)>::empty())) by {
        reveal(records_of);
    }
    lemma_records_then(records, none, Seq::empty());
    assert(with_headers(records) + Seq::<(Header, Seq<u8>)>::empty() =~= with_headers(records));
}

/// A stream read back is the data written, however many records it took.
pub proof fn law_stream_round_trip(record_type: RecordType, data: Seq<u8>, rest: Seq<u8>)
    ensures
        stream_of(record_type, stream_bytes(record_type, data) + rest) == Some((data, rest)),
{
    let last = record_bytes(record_type, Seq::empty());
    lemma_stream_end(record_type, rest);
    lemma_stream_piece(record_type, data, last + rest, Seq::empty(), rest);
    lemma_three(chunk_records(record_type, data), last, rest);
    assert(data + Seq::<u8>::empty() =~= data);
}

/// A request read back holds the parameters that were sent: the begin record, then
/// the parameter stream, then the request body.
pub proof fn law_prelude_round_trip(params: Seq<(Seq<u8>, Seq<u8>)>, body: Seq<u8>, rest: Seq<u8>)
    requires
        pairs_fit(params),
    ensures
        ({
            let begin = begin_request_body(FCGI_RESPONDER, false);
            let pairs = stream_bytes(RecordType::Params, pairs_bytes(params));
            let stdin = stream_bytes(RecordType::Stdin, body);
            &&& record_of(prelude_bytes(params) + stdin + rest) == Some(
                (
                    record_header(RecordType::BeginRequest, begin.len()),
                    begin,
                    pairs + stdin + rest,
                ),
            )
            &&& stream_of(RecordType::Params, pairs + stdin + rest) == Some(
                (pairs_bytes(params), stdin + rest),
            )
            &&& pairs_of(pairs_bytes(params)) == Some(params)
            &&& stream_of(RecordType::Stdin, stdin + rest) == Some((body, rest))
        }),
{
    let begin = begin_request_body(FCGI_RESPONDER, false);
    let pairs = stream_bytes(RecordType::Params, pairs_bytes(params));
    let stdin = stream_bytes(RecordType::Stdin, body);
    assert(prelude_bytes(params) + stdin + rest =~= record_bytes(RecordType::BeginRequest, begin) + (
    pairs + stdin + rest));
    law_record_round_trip(RecordType::BeginRequest, begin, pairs + stdin + rest);
    assert(pairs + stdin + rest =~= pairs + (stdin + rest));
    law_stream_round_trip(RecordType::Params, pairs_bytes(params), stdin + rest);
    law_pairs_round_trip(params);
    law_stream_round_trip(RecordType::Stdin, body, rest);
}

/// Whether `r` is the record header of this request that `bytes` begin with.
pub open spec fn is_record_head(bytes: Seq<u8>, r: Result<Header, ProxyError>) -> bool {
    match header_of(bytes) {
        Ok(h) => if h.request_id == REQUEST_ID {
            r is Ok && r->Ok_0 == h
        } else {
            r is Err && r->Err_0 is Fcgi && r->Err_0->Fcgi_source == FcgiError::UnexpectedRequestId(
                h.request_id,
            )
        },
        Err(e) => r is Err && r->Err_0 is Fcgi && r->Err_0->Fcgi_source == e,
    }
}

/// Read a record header of this request: how much content and padding follows it.
pub fn record_head(bytes: &[u8]) -> (r: Result<Header, ProxyError>)
    ensures
        is_record_head(bytes@, r),
{
    match Header::decode(bytes) {
        Ok(header) => if header.request_id != REQUEST_ID {
            Err(ProxyError::Fcgi { source: FcgiError::UnexpectedRequestId(header.request_id) })
        } else {
            Ok(header)
        },
        Err(source) => Err(ProxyError::Fcgi { source }),
    }
}

/// What came of reading the request body.
#[derive(Debug)]
pub enum BodyEvent {
    /// A piece of the body.
    Data(Vec<u8>),
    /// Trailers, which FastCGI has no form for.
    Trailers,
    /// The end of the body.
    End,
    /// The body broke off, for this reason.
    Failed(String),
}

/// What is to be sent for it.
#[derive(Debug)]
pub enum BodyAction {
    /// Send these bytes, and read on.
    Write(Vec<u8>),
    /// Send nothing, and read on.
    Skip,
    /// Send these bytes; they are the last.
    Finish(Vec<u8>),
    /// Send no more, and shut the connection for writing. The record that ends the
    /// body is held back: with it, a part of the body would pass for the whole.
    Shutdown(String),
}

/// Whether `r` is what is sent for a piece of the request body.
pub open spec fn is_written(event: BodyEvent, r: BodyAction) -> bool {
    match event {
        BodyEvent::Data(data) => r is Write && r->Write_0@ == chunk_records(
            RecordType::Stdin,
            data@,
        ),
        BodyEvent::Trailers => r is Skip,
        BodyEvent::End => r is Finish && r->Finish_0@ == record_bytes(
            RecordType::Stdin,
            Seq::empty(),
        ),
        BodyEvent::Failed(reason) => r == BodyAction::Shutdown(reason),
    }
}

/// What is sent for a piece of the request body.
pub fn write_step(event: BodyEvent) -> (r: BodyAction)
    ensures
        is_written(event, r),
{
    match event {
        BodyEvent::Data(data) => BodyAction::Write(stdin_records(data.as_slice())),
        BodyEvent::Trailers => BodyAction::Skip,
        BodyEvent::End => BodyAction::Finish(stdin_terminator()),
        BodyEvent::Failed(reason) => BodyAction::Shutdown(reason),
    }
}

/// The pieces of a body, each in its own records.
pub open spec fn pieces_bytes(record_type: RecordType, pieces: Seq<Seq<u8>>) -> Seq<u8>
    decreases pieces.len(),
{
    if pieces.len() == 0 {
        Seq::empty()
    } else {
        chunk_records(record_type, pieces[0]) + pieces_bytes(record_type, pieces.skip(1))
    }
}

/// The pieces of a body, one after another.
pub open spec fn whole(pieces: Seq<Seq<u8>>) -> Seq<u8>
    decreases pieces.len(),
{
    if pieces.len() == 0 {
        Seq::empty()
    } else {
        pieces[0] + whole(pieces.skip(1))
    }
}

/// Reading a stream takes a piece and then the rest.
pub proof fn lemma_stream_piece(
    record_type: RecordType,
    piece: Seq<u8>,
    tail: Seq<u8>,
    data: Seq<u8>,
    end: Seq<u8>,
)
    requires
        stream_of(record_type, tail) == Some((data, end)),
    ensures
        stream_of(record_type, chunk_records(record_type, piece) + tail) == Some(
            (piece + data, end),
        ),
    decreases piece.len(),
{
    if piece.len() == 0 {
        assert(Seq::<u8>::empty() + tail =~= tail);
        assert(piece + data =~= data);
    } else if piece.len() <= FCGI_MAX_PAYLOAD {
        lemma_stream_step(record_type, piece, tail, data, end);
    } else {
        let first = piece.take(FCGI_MAX_PAYLOAD as int);
        let more = piece.skip(FCGI_MAX_PAYLOAD as int);
        lemma_stream_piece(record_type, more, tail, data, end);
        lemma_stream_step(
            record_type,
            first,
            chunk_records(record_type, more) + tail,
            more + data,
            end,
        );
        lemma_three(record_bytes(record_type, first), chunk_records(record_type, more), tail);
        lemma_three(first, more, data);
        assert(first + more =~= piece);
    }
}

/// A request body read back is the whole of what was sent, however it was cut into
/// pieces on the way.
pub proof fn law_request_body_round_trip(pieces: Seq<Seq<u8>>, rest: Seq<u8>)
    ensures
        stream_of(
            RecordType::Stdin,
            pieces_bytes(RecordType::Stdin, pieces) + (record_bytes(RecordType::Stdin, Seq::empty())
                + rest),
        ) == Some((whole(pieces), rest)),
    decreases pieces.len(),
{
    let last = record_bytes(RecordType::Stdin, Seq::empty());
    if pieces.len() == 0 {
        lemma_stream_end(RecordType::Stdin, rest);
        assert(Seq::<u8>::empty() + (last + rest) =~= last + rest);
    } else {
        let more = pieces.skip(1);
        law_request_body_round_trip(more, rest);
        lemma_stream_piece(
            RecordType::Stdin,
            pieces[0],
            pieces_bytes(RecordType::Stdin, more) + (last + rest),
            whole(more),
            rest,
        );
        lemma_three(
            chunk_records(RecordType::Stdin, pieces[0]),
            pieces_bytes(RecordType::Stdin, more),
            last + rest,
        );
    }
}

} // verus!
