//! The FastCGI wire format: record headers, the begin-request body, and name-value
//! pairs.

use vstd::prelude::*;

verus! {

/// The protocol version that every record carries.
pub const FCGI_VERSION: u8 = 1;

/// The role of a backend that answers requests.
pub const FCGI_RESPONDER: u16 = 1;

/// The most content that one record holds.
pub const FCGI_MAX_PAYLOAD: usize = 65535;

/// The length of a record header.
pub const FCGI_HEADER_LEN: usize = 8;

/// The longest name or value of a pair.
pub const FCGI_MAX_PAIR_LEN: usize = 0x7fff_ffff;

/// What a record is for.
#[derive(Debug, Clone, Copy, PartialEq, Eq, Structural)]
pub enum RecordType {
    /// The web server begins a request.
    BeginRequest,
    /// The web server gives a request up.
    AbortRequest,
    /// The backend has answered.
    EndRequest,
    /// A part of the parameters.
    Params,
    /// A part of the request body.
    Stdin,
    /// A part of the response.
    Stdout,
    /// A part of the error output.
    Stderr,
    /// A part of the filter data.
    Data,
    /// A management question.
    GetValues,
    /// Its answer.
    GetValuesResult,
    /// The answer to an unknown management question.
    UnknownType,
}

/// Why bytes are no record for this proxy, or cannot become one.
#[derive(Debug, Clone, Copy, PartialEq, Eq, Structural)]
pub enum FcgiError {
    /// There are too few bytes for a header.
    Truncated,
    /// The header is of another protocol version.
    UnsupportedVersion(u8),
    /// The header has an unknown type.
    UnknownRecordType(u8),
    /// The record belongs to another request.
    UnexpectedRequestId(u16),
    /// A name or value is too long for a pair.
    PairTooLong,
}

/// The number of a record type on the wire.
pub open spec fn type_code(t: RecordType) -> u8 {
    match t {
        RecordType::BeginRequest => 1,
        RecordType::AbortRequest => 2,
        RecordType::EndRequest => 3,
        RecordType::Params => 4,
        RecordType::Stdin => 5,
        RecordType::Stdout => 6,
        RecordType::Stderr => 7,
        RecordType::Data => 8,
        RecordType::GetValues => 9,
        RecordType::GetValuesResult => 10,
        RecordType::UnknownType => 11,
    }
}

/// The record type with the number `code`.
pub open spec fn type_of_code(code: u8) -> Option<RecordType> {
    if code == 1 {
        Some(RecordType::BeginRequest)
    } else if code == 2 {
        Some(RecordType::AbortRequest)
    } else if code == 3 {
        Some(RecordType::EndRequest)
    } else if code == 4 {
        Some(RecordType::Params)
    } else if code == 5 {
        Some(RecordType::Stdin)
    } else if code == 6 {
        Some(RecordType::Stdout)
    } else if code == 7 {
        Some(RecordType::Stderr)
    } else if code == 8 {
        Some(RecordType::Data)
    } else if code == 9 {
        Some(RecordType::GetValues)
    } else if code == 10 {
        Some(RecordType::GetValuesResult)
    } else if code == 11 {
        Some(RecordType::UnknownType)
    } else {
        None
    }
}

impl RecordType {
    /// The number of this type on the wire.
    pub fn code(self) -> (r: u8)
        ensures
            r == type_code(self),
    {
        match self {
            RecordType::BeginRequest => 1,
            RecordType::AbortRequest => 2,
            RecordType::EndRequest => 3,
            RecordType::Params => 4,
            RecordType::Stdin => 5,
            RecordType::Stdout => 6,
            RecordType::Stderr => 7,
            RecordType::Data => 8,
            RecordType::GetValues => 9,
            RecordType::GetValuesResult => 10,
            RecordType::UnknownType => 11,
        }
    }

    /// The type with the number `code`.
    pub fn from_code(code: u8) -> (r: Option<RecordType>)
        ensures
            r == type_of_code(code),
    {
        match code {
            1 => Some(RecordType::BeginRequest),
            2 => Some(RecordType::AbortRequest),
            3 => Some(RecordType::EndRequest),
            4 => Some(RecordType::Params),
            5 => Some(RecordType::Stdin),
            6 => Some(RecordType::Stdout),
            7 => Some(RecordType::Stderr),
            8 => Some(RecordType::Data),
            9 => Some(RecordType::GetValues),
            10 => Some(RecordType::GetValuesResult),
            11 => Some(RecordType::UnknownType),
            _ => None,
        }
    }
}

/// The header of a record.
#[derive(Debug, Clone, Copy, PartialEq, Eq, Structural)]
pub struct Header {
    /// The protocol version.
    pub version: u8,
    /// What the record is for.
    pub record_type: RecordType,
    /// The request that it belongs to.
    pub request_id: u16,
    /// How many bytes of content follow.
    pub content_length: u16,
    /// How many bytes of padding follow the content.
    pub padding_length: u8,
}

/// The upper byte of `n`.
pub open spec fn high(n: u16) -> u8 {
    (n / 256) as u8
}

/// The lower byte of `n`.
pub open spec fn low(n: u16) -> u8 {
    (n % 256) as u8
}

/// A header on the wire.
pub open spec fn header_bytes(h: Header) -> Seq<u8> {
    seq![
        h.version,
        type_code(h.record_type),
        high(h.request_id),
        low(h.request_id),
        high(h.content_length),
        low(h.content_length),
        h.padding_length,
        0u8,
    ]
}

/// The header that `bytes` begin with.
pub open spec fn header_of(bytes: Seq<u8>) -> Result<Header, FcgiError> {
    if bytes.len() < FCGI_HEADER_LEN {
        Err(FcgiError::Truncated)
    } else if bytes[0] != FCGI_VERSION {
        Err(FcgiError::UnsupportedVersion(bytes[0]))
    } else {
        match type_of_code(bytes[1]) {
            Some(record_type) => Ok(
                Header {
                    version: bytes[0],
                    record_type,
                    request_id: (bytes[2] * 256 + bytes[3]) as u16,
                    content_length: (bytes[4] * 256 + bytes[5]) as u16,
                    padding_length: bytes[6],
                },
            ),
            None => Err(FcgiError::UnknownRecordType(bytes[1])),
        }
    }
}

impl Header {
    /// Append this header to `out`.
    pub fn encode(&self, out: &mut Vec<u8>)
        ensures
            final(out)@ == old(out)@ + header_bytes(*self),
    {
        let ghost before = out@;
        out.push(self.version);
        out.push(self.record_type.code());
        out.push((self.request_id / 256) as u8);
        out.push((self.request_id % 256) as u8);
        out.push((self.content_length / 256) as u8);
        out.push((self.content_length % 256) as u8);
        out.push(self.padding_length);
        out.push(0);
        assert(out@ =~= before + header_bytes(*self));
    }

    /// The header that `bytes` begin with.
    pub fn decode(bytes: &[u8]) -> (r: Result<Header, FcgiError>)
        ensures
            r == header_of(bytes@),
    {
        if bytes.len() < FCGI_HEADER_LEN {
            return Err(FcgiError::Truncated);
        }
        if bytes[0] != FCGI_VERSION {
            return Err(FcgiError::UnsupportedVersion(bytes[0]));
        }
        match RecordType::from_code(bytes[1]) {
            Some(record_type) => Ok(
                Header {
                    version: bytes[0],
                    record_type,
                    request_id: bytes[2] as u16 * 256 + bytes[3] as u16,
                    content_length: bytes[4] as u16 * 256 + bytes[5] as u16,
                    padding_length: bytes[6],
                },
            ),
            None => Err(FcgiError::UnknownRecordType(bytes[1])),
        }
    }
}

/// The body of the record that begins a request: the role, whether the connection
/// stays open, and five reserved bytes.
pub open spec fn begin_request_body(role: u16, keep_conn: bool) -> Seq<u8> {
    seq![
        high(role),
        low(role),
        if keep_conn {
            1u8
        } else {
            0u8
        },
        0u8,
        0u8,
        0u8,
        0u8,
        0u8,
    ]
}

/// The body of the record that begins a request.
pub fn encode_begin_request_body(role: u16, keep_conn: bool) -> (body: Vec<u8>)
    ensures
        body@ == begin_request_body(role, keep_conn),
{
    let mut body: Vec<u8> = Vec::new();
    body.push((role / 256) as u8);
    body.push((role % 256) as u8);
    body.push(if keep_conn { 1 } else { 0 });
    body.push(0);
    body.push(0);
    body.push(0);
    body.push(0);
    body.push(0);
    assert(body@ =~= begin_request_body(role, keep_conn));
    body
}

/// A length on the wire: one byte below 128, else four with the top bit set.
#[verifier::opaque]
pub open spec fn length_bytes(n: nat) -> Seq<u8> {
    if n < 128 {
        seq![n as u8]
    } else {
        seq![
            (n / 0x100_0000 + 128) as u8,
            (n / 0x1_0000 % 256) as u8,
            (n / 0x100 % 256) as u8,
            (n % 256) as u8,
        ]
    }
}

/// A pair on the wire: both lengths, then name and value.
pub open spec fn pair_bytes(name: Seq<u8>, value: Seq<u8>) -> Seq<u8> {
    length_bytes(name.len()) + length_bytes(value.len()) + name + value
}

/// Whether a pair can be written.
pub open spec fn pair_fits(name: Seq<u8>, value: Seq<u8>) -> bool {
    name.len() <= FCGI_MAX_PAIR_LEN && value.len() <= FCGI_MAX_PAIR_LEN
}

/// Append a length to `out`.
fn encode_length(n: usize, out: &mut Vec<u8>)
    requires
        n <= FCGI_MAX_PAIR_LEN,
    ensures
        final(out)@ == old(out)@ + length_bytes(n as nat),
{
    let ghost before = out@;
    proof {
        reveal(length_bytes);
    }
    if n < 128 {
        out.push(n as u8);
    } else {
        out.push((n / 0x100_0000 + 128) as u8);
        out.push((n / 0x1_0000 % 256) as u8);
        out.push((n / 0x100 % 256) as u8);
        out.push((n % 256) as u8);
    }
    assert(out@ =~= before + length_bytes(n as nat));
}

/// Append a pair to `out`, unless its name or value is too long.
pub fn encode_name_value(name: &[u8], value: &[u8], out: &mut Vec<u8>) -> (r: Result<
    (),
    FcgiError,
>)
    ensures
        r == (if pair_fits(name@, value@) {
            Ok::<(), FcgiError>(())
        } else {
            Err(FcgiError::PairTooLong)
        }),
        final(out)@ == old(out)@ + (if pair_fits(name@, value@) {
            pair_bytes(name@, value@)
        } else {
            Seq::<u8>::empty()
        }),
{
    let ghost before = out@;
    if name.len() > FCGI_MAX_PAIR_LEN || value.len() > FCGI_MAX_PAIR_LEN {
        assert(before + Seq::<u8>::empty() =~= before);
        return Err(FcgiError::PairTooLong);
    }
    encode_length(name.len(), out);
    encode_length(value.len(), out);
    out.extend_from_slice(name);
    out.extend_from_slice(value);
    assert(out@ =~= before + pair_bytes(name@, value@));
    Ok(())
}

/// The length that `bytes` begin with, and how many bytes it takes.
#[verifier::opaque]
pub open spec fn length_of(bytes: Seq<u8>) -> Option<(nat, nat)> {
    if bytes.len() == 0 {
        None
    } else if bytes[0] < 128 {
        Some((bytes[0] as nat, 1))
    } else if bytes.len() < 4 {
        None
    } else {
        Some(
            (
                ((bytes[0] - 128) * 0x100_0000 + bytes[1] * 0x1_0000 + bytes[2] * 0x100
                    + bytes[3]) as nat,
                4,
            ),
        )
    }
}

/// The pair that `bytes` begin with, and what follows it.
pub open spec fn pair_of(bytes: Seq<u8>) -> Option<(Seq<u8>, Seq<u8>, Seq<u8>)> {
    match length_of(bytes) {
        Some((n, a)) => match length_of(bytes.skip(a as int)) {
            Some((m, b)) => if bytes.len() >= a + b + n + m {
                Some(
                    (
                        bytes.subrange((a + b) as int, (a + b + n) as int),
                        bytes.subrange((a + b + n) as int, (a + b + n + m) as int),
                        bytes.skip((a + b + n + m) as int),
                    ),
                )
            } else {
                None
            },
            None => None,
        },
        None => None,
    }
}

/// The pairs that `bytes` are made of.
pub open spec fn pairs_of(bytes: Seq<u8>) -> Option<Seq<(Seq<u8>, Seq<u8>)>>
    decreases bytes.len(),
{
    if bytes.len() == 0 {
        Some(Seq::empty())
    } else {
        match pair_of(bytes) {
            Some((name, value, rest)) => if rest.len() < bytes.len() {
                match pairs_of(rest) {
                    Some(more) => Some(seq![(name, value)] + more),
                    None => None,
                }
            } else {
                None
            },
            None => None,
        }
    }
}

/// Pairs on the wire, one after another.
pub open spec fn pairs_bytes(ps: Seq<(Seq<u8>, Seq<u8>)>) -> Seq<u8>
    decreases ps.len(),
{
    if ps.len() == 0 {
        Seq::empty()
    } else {
        pair_bytes(ps[0].0, ps[0].1) + pairs_bytes(ps.skip(1))
    }
}

/// Whether every pair can be written.
pub open spec fn pairs_fit(ps: Seq<(Seq<u8>, Seq<u8>)>) -> bool {
    forall|i: int| 0 <= i < ps.len() ==> pair_fits((#[trigger] ps[i]).0, ps[i].1)
}

/// A header read back is the header written.
pub proof fn law_header_round_trip(h: Header, rest: Seq<u8>)
    requires
        h.version == FCGI_VERSION,
    ensures
        header_of(header_bytes(h) + rest) == Ok::<Header, FcgiError>(h),
{
    let bytes = header_bytes(h) + rest;
    assert(bytes[2] * 256 + bytes[3] == h.request_id);
    assert(bytes[4] * 256 + bytes[5] == h.content_length);
    assert(bytes[1] == type_code(h.record_type));
}

/// A length read back is the length written.
proof fn lemma_length_round_trip(n: nat, rest: Seq<u8>)
    requires
        n <= FCGI_MAX_PAIR_LEN,
    ensures
        length_of(length_bytes(n) + rest) == Some((n, length_bytes(n).len())),
        length_bytes(n).len() > 0,
{
    reveal(length_bytes);
    reveal(length_of);
    let bytes = length_bytes(n) + rest;
    if n < 128 {
        assert(bytes[0] == n as u8);
    } else {
        assert(bytes[0] == (n / 0x100_0000 + 128) as u8);
        assert(bytes[1] == (n / 0x1_0000 % 256) as u8);
        assert(bytes[2] == (n / 0x100 % 256) as u8);
        assert(bytes[3] == (n % 256) as u8);
    }
}

/// A pair read back is the pair written.
pub proof fn law_pair_round_trip(name: Seq<u8>, value: Seq<u8>, rest: Seq<u8>)
    requires
        pair_fits(name, value),
    ensures
        pair_of(pair_bytes(name, value) + rest) == Some((name, value, rest)),
        pair_bytes(name, value).len() > 0,
{
    let bytes = pair_bytes(name, value) + rest;
    let a = length_bytes(name.len());
    let b = length_bytes(value.len());
    lemma_length_round_trip(name.len(), b + name + value + rest);
    assert(bytes =~= a + (b + name + value + rest));
    lemma_length_round_trip(value.len(), name + value + rest);
    assert(bytes.skip(a.len() as int) =~= b + (name + value + rest));
    let at = (a.len() + b.len()) as int;
    assert(bytes.subrange(at, at + name.len()) =~= name);
    assert(bytes.subrange(at + name.len(), at + name.len() + value.len()) =~= value);
    assert(bytes.skip(at + name.len() + value.len()) =~= rest);
}

/// A list of pairs read back is the list written.
pub proof fn law_pairs_round_trip(ps: Seq<(Seq<u8>, Seq<u8>)>)
    requires
        pairs_fit(ps),
    ensures
        pairs_of(pairs_bytes(ps)) == Some(ps),
    decreases ps.len(),
{
    if ps.len() > 0 {
        let tail = ps.skip(1);
        assert forall|i: int| 0 <= i < tail.len() implies pair_fits((#[trigger] tail[i]).0, tail[i].1)
            by {
            assert(tail[i] == ps[i + 1]);
        }
        law_pairs_round_trip(tail);
        law_pair_round_trip(ps[0].0, ps[0].1, pairs_bytes(tail));
        assert(seq![(ps[0].0, ps[0].1)] + tail =~= ps);
    } else {
        assert(ps =~= Seq::empty());
    }
}

/// One more pair on the wire.
pub proof fn lemma_pairs_push(ps: Seq<(Seq<u8>, Seq<u8>)>, p: (Seq<u8>, Seq<u8>))
    ensures
        pairs_bytes(ps.push(p)) == pairs_bytes(ps) + pair_bytes(p.0, p.1),
    decreases ps.len(),
{
    if ps.len() == 0 {
        let none = ps.push(p).skip(1);
        assert(none.len() == 0 && pairs_bytes(none) == Seq::<u8>::empty());
        assert(ps.push(p)[0] == p);
        assert(pairs_bytes(ps.push(p)) =~= pairs_bytes(ps) + pair_bytes(p.0, p.1));
    } else {
        lemma_pairs_push(ps.skip(1), p);
        assert(ps.push(p).skip(1) =~= ps.skip(1).push(p));
        assert(pairs_bytes(ps.push(p)) =~= pairs_bytes(ps) + pair_bytes(p.0, p.1));
    }
}

} // verus!
