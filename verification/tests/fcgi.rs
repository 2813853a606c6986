use yerd_proxy::dispatch::unreachable_franken;
use yerd_proxy::error::ProxyError;
use yerd_proxy::exchange::{
    can_have_body, can_have_content_length, connection_tokens, restore_head_content_length,
    strip_hop_by_hop_only, synthesise_response, Action, Event, Exchange, Head, HeadFeed,
};
use yerd_proxy::fcgi::{
    record_head, request_prelude, stdin_records, stdin_terminator, write_record, write_step,
    BodyAction, BodyEvent, REQUEST_ID,
};
use yerd_proxy::fcgi_codec::{
    encode_begin_request_body, encode_name_value, FcgiError, Header, RecordType,
};
use yerd_proxy::headers::header_text;
use yerd_proxy::login::{path_and_query_of, path_and_query_or_root};
use yerd_proxy::replies::upgrade_not_supported;

fn head(status: u16, headers: &[(&str, &str)]) -> Head {
    Head {
        status,
        headers: headers
            .iter()
            .map(|(n, v)| ((*n).to_owned(), (*v).to_owned()))
            .collect(),
        body_remainder: Vec::new(),
    }
}

#[test]
fn synthesise_response_carries_status_and_headers() {
    let resp = synthesise_response(
        head(201, &[("X-Test", "1")]),
        (),
    )
    .unwrap();
    assert_eq!(resp.status, 201);
    assert_eq!(resp.headers.get("X-Test").unwrap(), "1");
}

/// A header name with a space is not a valid HTTP token, so it is dropped.
#[test]
fn synthesise_response_skips_invalid_header_name() {
    let resp = synthesise_response(
        head(200, &[("Bad Name", "v"), ("Good", "y")]),
        (),
    )
    .unwrap();
    assert!(resp.headers.get("Good").is_some());
    assert_eq!(resp.headers.len(), 1);
}

#[test]
fn synthesise_response_strips_x_accel_buffering() {
    let resp = synthesise_response(
        head(
            200,
            &[("X-Accel-Buffering", "no"), ("Content-Type", "text/plain")],
        ),
        (),
    )
    .unwrap();
    assert!(resp.headers.get("x-accel-buffering").is_none());
    assert_eq!(resp.headers.get("Content-Type").unwrap(), "text/plain");
}

/// The canonical PHP SSE snippet sets `Connection: keep-alive` next to
/// `X-Accel-Buffering: no`; neither belongs on the wire to the client.
#[test]
fn synthesise_response_strips_hop_by_hop_headers() {
    let resp = synthesise_response(
        head(
            200,
            &[
                ("Connection", "keep-alive, X-Vendor"),
                ("Keep-Alive", "timeout=5"),
                ("Transfer-Encoding", "identity"),
                ("X-Vendor", "dropped by the Connection token"),
                ("Content-Type", "text/event-stream"),
            ],
        ),
        (),
    )
    .unwrap();
    for stripped in ["connection", "keep-alive", "transfer-encoding", "x-vendor"] {
        assert!(
            resp.headers.get(stripped).is_none(),
            "{stripped} must not reach the client"
        );
    }
    assert_eq!(
        resp.headers.get("Content-Type").unwrap(),
        "text/event-stream"
    );
}

#[test]
fn synthesise_response_empty_head_builds() {
    let resp =
        synthesise_response(head(204, &[]), ()).unwrap();
    assert_eq!(resp.status, 204);
    assert!(resp.headers.is_empty());
}

#[test]
fn can_have_body_matches_hypers_rule() {
    let cases = [
        ("GET", 200, true),
        ("HEAD", 200, false),
        ("GET", 204, false),
        ("GET", 304, false),
        ("GET", 100, false),
        ("CONNECT", 200, false),
        ("CONNECT", 502, true),
        ("POST", 201, true),
    ];
    for (method, status, expected) in cases {
        assert_eq!(
            can_have_body(method, status),
            expected,
            "{method} {status}"
        );
    }
}

#[test]
fn can_have_content_length_matches_hypers_rule() {
    let cases = [
        ("GET", 200, true),
        ("HEAD", 200, true),
        ("GET", 204, false),
        ("GET", 304, false),
        ("GET", 100, false),
        ("CONNECT", 200, false),
        ("CONNECT", 502, true),
    ];
    for (method, status, expected) in cases {
        assert_eq!(
            can_have_content_length(method, status),
            expected,
            "{method} {status}"
        );
    }
}

#[test]
fn restore_head_content_length_fills_in_the_length_for_head() {
    let mut h = head(200, &[("Content-Type", "text/plain")]);
    restore_head_content_length(&mut h, "HEAD", 42);
    assert_eq!(
        h.headers,
        vec![
            ("Content-Type".to_owned(), "text/plain".to_owned()),
            ("Content-Length".to_owned(), "42".to_owned()),
        ]
    );
}

#[test]
fn restore_head_content_length_leaves_a_php_supplied_length_alone() {
    let mut h = head(200, &[("content-length", "7")]);
    restore_head_content_length(&mut h, "HEAD", 42);
    assert_eq!(
        h.headers,
        vec![("content-length".to_owned(), "7".to_owned())]
    );
}

/// GET never needs it (hyper frames the real body) and 204/304 must not
/// carry one at all.
#[test]
fn restore_head_content_length_skips_everything_else() {
    for (method, status) in [
        ("GET", 200),
        ("HEAD", 204),
        ("HEAD", 304),
    ] {
        let mut h = head(status, &[]);
        restore_head_content_length(&mut h, method, 42);
        assert!(h.headers.is_empty(), "{method} {status}");
    }
}

#[test]
fn upgrade_not_supported_is_501_plaintext() {
    let resp = upgrade_not_supported();
    assert_eq!(resp.status, 501);
    assert_eq!(
        resp.headers
            .get(http::header::CONTENT_TYPE)
            .and_then(|v| v.to_str().ok()),
        Some("text/plain; charset=utf-8")
    );
}

#[test]
fn write_record_frames_header_then_content() {
    let mut out = Vec::new();
    write_record(&mut out, RecordType::Stdout, b"abc");
    assert_eq!(out.len(), 11);
    let header = Header::decode(&out[..8]).unwrap();
    assert_eq!(header.record_type, RecordType::Stdout);
    assert_eq!(header.request_id, REQUEST_ID);
    assert_eq!(header.content_length, 3);
    assert_eq!(header.padding_length, 0);
    assert_eq!(&out[8..], b"abc");
}

#[test]
fn write_record_empty_content_is_terminator() {
    let mut out = Vec::new();
    write_record(&mut out, RecordType::Params, &[]);
    assert_eq!(out.len(), 8);
    assert_eq!(Header::decode(&out).unwrap().content_length, 0);
}

#[test]
fn path_and_query_of_extracts_or_defaults_to_slash() {
    assert_eq!(
        path_and_query_of("http://h/foo?a=1").as_deref(),
        Some("/foo?a=1")
    );
    assert_eq!(path_and_query_of("http://h").as_deref(), Some("/"));
}

#[test]
fn unreachable_franken_returns_error() {
    assert!(unreachable_franken().contains("dispatch bug"));
}

#[test]
fn an_authority_has_no_path() {
    assert_eq!(path_and_query_of("h.test:80").as_deref(), Some("/"));
    assert_eq!(path_and_query_of("/a b"), None);
    assert_eq!(path_and_query_of("/a#b").as_deref(), Some("/a"));
    assert_eq!(
        path_and_query_or_root(Some(None)).as_deref(),
        Some("/")
    );
    assert_eq!(path_and_query_or_root(None), None);
}

#[test]
fn a_target_in_origin_form_reads_as_it_stands() {
    let long = format!("/{}", "x".repeat(65_533));
    for target in [
        "/",
        "/a/b!$&'()*+,-.:;=@[]^_|~\"{}caf\u{e9}",
        "/?",
        "/x?a=?&b=`{}|^~\\[]@caf\u{e9}",
        long.as_str(),
    ] {
        assert_eq!(path_and_query_of(target).as_deref(), Some(target));
    }
    for target in ["/a<b", "/a`b", "/?a>b", "/?a\"b", &format!("{long}x")] {
        assert_eq!(path_and_query_of(target), None, "{target}");
    }
}

#[test]
fn headers_read_back() {
    for kind in [
        RecordType::BeginRequest,
        RecordType::AbortRequest,
        RecordType::EndRequest,
        RecordType::Params,
        RecordType::Stdin,
        RecordType::Stdout,
        RecordType::Stderr,
        RecordType::Data,
        RecordType::GetValues,
        RecordType::GetValuesResult,
        RecordType::UnknownType,
    ] {
        let header = Header {
            version: 1,
            record_type: kind,
            request_id: 0x1234,
            content_length: 0xfedc,
            padding_length: 7,
        };
        let mut out = Vec::new();
        header.encode(&mut out);
        assert_eq!(out[1], kind.code());
        assert_eq!(&out[2..], &[0x12, 0x34, 0xfe, 0xdc, 7, 0]);
        assert_eq!(Header::decode(&out), Ok(header));
    }
}

#[test]
fn bad_headers_are_refused() {
    assert_eq!(Header::decode(&[1, 6, 0, 1, 0, 0, 0]), Err(FcgiError::Truncated));
    assert_eq!(
        Header::decode(&[2, 6, 0, 1, 0, 0, 0, 0]),
        Err(FcgiError::UnsupportedVersion(2))
    );
    assert_eq!(
        Header::decode(&[1, 12, 0, 1, 0, 0, 0, 0]),
        Err(FcgiError::UnknownRecordType(12))
    );
    assert!(matches!(
        record_head(&[1, 6, 0, 2, 0, 0, 0, 0]),
        Err(ProxyError::Fcgi { source: FcgiError::UnexpectedRequestId(2) })
    ));
    assert!(matches!(
        record_head(&[1, 0, 0, 1, 0, 0, 0, 0]),
        Err(ProxyError::Fcgi { source: FcgiError::UnknownRecordType(0) })
    ));
    let header = record_head(&[1, 3, 0, 1, 0, 8, 0, 0]).unwrap();
    assert_eq!(header.record_type, RecordType::EndRequest);
    assert_eq!(header.content_length, 8);
}

#[test]
fn error_texts() {
    let fcgi = |source| ProxyError::Fcgi { source }.to_string();
    assert_eq!(fcgi(FcgiError::Truncated), "FastCGI error: truncated record header");
    assert_eq!(
        fcgi(FcgiError::UnsupportedVersion(2)),
        "FastCGI error: unsupported protocol version 2"
    );
    assert_eq!(
        fcgi(FcgiError::UnknownRecordType(200)),
        "FastCGI error: unknown record type 200"
    );
    assert_eq!(
        fcgi(FcgiError::UnexpectedRequestId(65535)),
        "FastCGI error: unexpected request id 65535"
    );
    assert_eq!(fcgi(FcgiError::PairTooLong), "FastCGI error: name or value too long");
    let e = ProxyError::BackendConnect {
        backend: "fpm".to_owned(),
        source: "refused".to_owned(),
    };
    assert_eq!(e.to_string(), "cannot connect to backend fpm: refused");
    let e = ProxyError::Setup { source: "no certificate".to_owned() };
    assert_eq!(e.to_string(), "proxy setup failed: no certificate");
}

#[test]
fn pairs_have_short_and_long_lengths() {
    let mut out = Vec::new();
    encode_name_value(b"ab", b"c", &mut out).unwrap();
    assert_eq!(out, [2, 1, b'a', b'b', b'c']);
    let mut out = Vec::new();
    let long = vec![b'x'; 0x1_0203];
    encode_name_value(&long, &[b'y'; 128], &mut out).unwrap();
    assert_eq!(&out[..8], &[0x80, 1, 2, 3, 0x80, 0, 0, 128]);
    assert_eq!(out.len(), 8 + 0x1_0203 + 128);
    let mut out = Vec::new();
    encode_name_value(&[], &[b'y'; 127], &mut out).unwrap();
    assert_eq!(&out[..2], &[0, 127]);
}

#[test]
fn the_begin_body_names_the_role() {
    assert_eq!(encode_begin_request_body(1, false), [0, 1, 0, 0, 0, 0, 0, 0]);
    assert_eq!(encode_begin_request_body(0x0203, true), [2, 3, 1, 0, 0, 0, 0, 0]);
}

/// The records in `bytes`, each as type and content.
fn records(bytes: &[u8]) -> Vec<(RecordType, Vec<u8>)> {
    let mut out = Vec::new();
    let mut at = 0;
    while at < bytes.len() {
        let header = record_head(&bytes[at..]).unwrap();
        let end = at + 8 + header.content_length as usize;
        out.push((header.record_type, bytes[at + 8..end].to_vec()));
        at = end + header.padding_length as usize;
    }
    out
}

#[test]
fn a_prelude_reads_back() {
    let params = vec![
        (b"A".to_vec(), b"1".to_vec()),
        (b"LONG".to_vec(), vec![b'z'; 70_000]),
    ];
    let bytes = request_prelude(&params).unwrap();
    let records = records(&bytes);
    assert_eq!(records[0], (RecordType::BeginRequest, vec![0, 1, 0, 0, 0, 0, 0, 0]));
    assert_eq!(records.len(), 4);
    assert_eq!(records[1].1.len(), 65_535);
    assert_eq!(records[3], (RecordType::Params, Vec::new()));
    let joined: Vec<u8> = records[1..].iter().flat_map(|(_, c)| c.clone()).collect();
    assert_eq!(&joined[..4], &[1, 1, b'A', b'1']);
    assert_eq!(&joined[4..9], &[4, 0x80, 1, 0x11, 0x70]);
    assert_eq!(joined.len(), 4 + 5 + 4 + 70_000);
}

#[test]
fn a_body_is_cut_into_records_and_ended() {
    assert!(stdin_records(&[]).is_empty());
    let data: Vec<u8> = (0..131_071u32).map(|i| i as u8).collect();
    let parts = records(&stdin_records(&data));
    assert_eq!(
        parts.iter().map(|(_, c)| c.len()).collect::<Vec<_>>(),
        [65_535, 65_535, 1]
    );
    assert!(parts.iter().all(|(t, _)| *t == RecordType::Stdin));
    assert_eq!(parts.into_iter().flat_map(|(_, c)| c).collect::<Vec<u8>>(), data);
    assert_eq!(stdin_terminator(), [1, 5, 0, 1, 0, 0, 0, 0]);
}

#[test]
fn only_a_whole_body_is_ended() {
    assert!(matches!(
        write_step(BodyEvent::Data(b"ab".to_vec())),
        BodyAction::Write(bytes) if bytes == [1, 5, 0, 1, 0, 2, 0, 0, b'a', b'b']
    ));
    assert!(matches!(write_step(BodyEvent::Trailers), BodyAction::Skip));
    assert!(matches!(
        write_step(BodyEvent::End),
        BodyAction::Finish(bytes) if bytes == [1, 5, 0, 1, 0, 0, 0, 0]
    ));
    assert!(matches!(
        write_step(BodyEvent::Failed("reset".to_owned())),
        BodyAction::Shutdown(reason) if reason == "reset"
    ));
}

#[test]
fn an_oversized_record_claims_the_most_it_can() {
    let mut out = Vec::new();
    write_record(&mut out, RecordType::Stdout, &vec![0; 65_536]);
    assert_eq!(&out[..8], &[1, 6, 0, 1, 0xff, 0xff, 0, 0]);
    assert_eq!(out.len(), 8 + 65_536);
}

#[test]
fn response_headers_keep_repeated_values() {
    let resp = synthesise_response(
        head(
            200,
            &[
                ("Set-Cookie", "a=1"),
                ("X-One", "1"),
                ("set-cookie", "b=2"),
                ("X-Bad", "line\nbreak"),
                ("Content-Length", "5"),
            ],
        ),
        (),
    )
    .unwrap();
    let cookies: Vec<_> = resp.headers.get_all("set-cookie").iter().collect();
    assert_eq!(cookies, ["a=1", "b=2"]);
    assert_eq!(resp.headers.get("x-one").unwrap(), "1");
    assert_eq!(resp.headers.get("content-length").unwrap(), "5");
    assert!(resp.headers.get("x-bad").is_none());
}

#[test]
fn stripping_takes_every_listed_name() {
    let mut map = http::HeaderMap::new();
    map.append("connection", "close, X-A".parse().unwrap());
    map.append("connection", " x-b ,,".parse().unwrap());
    map.append("x-a", "1".parse().unwrap());
    map.append("x-b", "2".parse().unwrap());
    map.append("x-c", "3".parse().unwrap());
    map.append("te", "trailers".parse().unwrap());
    map.append("upgrade", "h2c".parse().unwrap());
    map.append("trailer", "x".parse().unwrap());
    map.append("proxy-connection", "x".parse().unwrap());
    map.append("proxy-authenticate", "x".parse().unwrap());
    map.append("proxy-authorization", "x".parse().unwrap());
    assert_eq!(connection_tokens(&map), ["close", "X-A", "x-b", "", ""]);
    strip_hop_by_hop_only(&mut map);
    assert_eq!(map.len(), 1);
    assert_eq!(map.get("x-c").unwrap(), "3");
}

/// A name with a double quote can stand in a map, but no lookup finds it.
#[test]
fn what_is_no_header_name_is_not_looked_up() {
    let mut map = http::HeaderMap::new();
    let quoted = http::HeaderName::from_lowercase(b"x\"y").unwrap();
    map.append(quoted.clone(), "1".parse().unwrap());
    map.append("X-Plain", "2".parse().unwrap());
    map.append("connection", "x\"y, x-plain".parse().unwrap());
    assert_eq!(header_text(&map, "x\"y"), None);
    assert_eq!(header_text(&map, "x-PLAIN").as_deref(), Some("2"));
    assert_eq!(header_text(&map, ""), None);
    strip_hop_by_hop_only(&mut map);
    assert_eq!(map.len(), 1);
    assert_eq!(map.get(quoted).unwrap(), "1");
}

/// In a name of more than 64 bytes, a lookup takes every byte that may not stand in one
/// for NUL.
#[test]
fn long_names_are_looked_up_byte_by_byte() {
    let long: &'static str =
        "x-aaaaaaaaaaaaaaaaaaaaaaaaaaaaaaaaaaaaaaaaaaaaaaaaaaaaaaaaaaaaaaaaaaaaaa b";
    let mut map = http::HeaderMap::new();
    map.append(long, "1".parse().unwrap());
    assert_eq!(header_text(&map, long).as_deref(), Some("1"));
    assert_eq!(header_text(&map, &long.replace(' ', "(")).as_deref(), Some("1"));
    assert_eq!(header_text(&map, &long.replace(' ', "-")), None);
    let upper = long.to_uppercase().replace(' ', "-");
    map.append(http::HeaderName::from_bytes(upper.as_bytes()).unwrap(), "2".parse().unwrap());
    assert_eq!(header_text(&map, &upper).as_deref(), Some("2"));
}

#[test]
fn too_many_header_names_fail_cleanly() {
    let many: Vec<(String, String)> = (0..30_000)
        .map(|i| (format!("x-{i}"), "1".to_owned()))
        .collect();
    let resp = synthesise_response(
        Head { status: 200, headers: many, body_remainder: Vec::new() },
        (),
    );
    assert!(matches!(
        resp,
        Err(ProxyError::BackendProtocol { source }) if source == "failed to build response"
    ));
}

/// The limit is one on names: any number of lines may stand under one.
#[test]
fn many_lines_under_one_name_are_answered() {
    let mut one = head(200, &[]);
    for i in 0..7000 {
        one.headers.push(("Set-Cookie".to_owned(), format!("c{i}=1")));
    }
    let resp = synthesise_response(one, ()).unwrap();
    assert_eq!(resp.headers.get_all("set-cookie").iter().count(), 7000);
    assert_eq!(resp.headers.get("set-cookie").unwrap(), "c0=1");
}

#[test]
fn records_of_any_types_read_back() {
    let mut out = b"before".to_vec();
    let written = [
        (RecordType::Stderr, b"note".to_vec()),
        (RecordType::Stdout, vec![7; 65535]),
        (RecordType::Stdout, Vec::new()),
        (RecordType::EndRequest, vec![0; 8]),
    ];
    for (kind, content) in &written {
        write_record(&mut out, *kind, content);
    }
    assert_eq!(&out[..6], b"before");
    assert_eq!(records(&out[6..]), written);
    let first = Header::decode(&out[6..]).unwrap();
    assert_eq!((first.version, first.request_id, first.padding_length), (1, REQUEST_ID, 0));
}

#[test]
fn a_streamed_body_begins_with_what_came_with_the_head() {
    let mut body: Vec<u8> = Vec::new();
    let (mut s, a) = Exchange::AwaitFeed.step("GET", complete(200, &[], b"one "));
    match a {
        Action::Stream { first, .. } => body.extend(first.unwrap_or_default()),
        other => panic!("expected Stream, got {other:?}"),
    }
    let events = [
        stdout(b"two "),
        Event::Record(RecordType::Stderr, b"noise".to_vec()),
        stdout(b""),
        stdout(b"three"),
    ];
    for event in events {
        let (next, a) = s.step("GET", event);
        if let Action::Send(piece) = a {
            body.extend(piece);
        }
        s = next;
    }
    assert_eq!(body, b"one two three");
}

fn stdout(content: &[u8]) -> Event {
    Event::Record(RecordType::Stdout, content.to_vec())
}

fn end() -> Event {
    Event::Record(RecordType::EndRequest, vec![0; 8])
}

fn complete(status: u16, headers: &[(&str, &str)], remainder: &[u8]) -> Event {
    let mut h = head(status, headers);
    h.body_remainder = remainder.to_vec();
    Event::Fed(HeadFeed::Complete(h))
}

#[test]
fn a_response_streams_before_its_end() {
    let (s, a) = Exchange::AwaitRecord.step(
        "GET",
        Event::Record(RecordType::Stderr, b"PHP Notice: boot".to_vec()),
    );
    assert!(matches!(a, Action::Log(text) if text == b"PHP Notice: boot"));
    let (s, a) = s.step("GET", stdout(b"Content-Type: text/event-stream\r\n"));
    assert!(matches!(a, Action::Feed(text) if text == b"Content-Type: text/event-stream\r\n"));
    let (s, a) = s.step("GET", Event::Fed(HeadFeed::Pending));
    assert!(matches!(a, Action::Read));
    let (s, _) = s.step("GET", stdout(b"\r\nchunk-one"));
    let (s, a) = s.step(
        "GET",
        complete(200, &[("Content-Type", "text/event-stream")], b"chunk-one"),
    );
    match a {
        Action::Stream { response, first } => {
            assert_eq!(response.status, 200);
            assert_eq!(response.headers.len(), 1);
            assert_eq!(first.unwrap(), b"chunk-one");
        }
        other => panic!("expected Stream, got {other:?}"),
    }
    let (s, a) = s.step("GET", Event::Record(RecordType::Stderr, Vec::new()));
    assert!(matches!(a, Action::Read));
    let (s, a) = s.step("GET", Event::Record(RecordType::Stderr, b"midway".to_vec()));
    assert!(matches!(a, Action::Log(_)));
    let (s, a) = s.step("GET", stdout(b""));
    assert!(matches!(a, Action::Read));
    let (s, a) = s.step("GET", stdout(b"chunk-two"));
    assert!(matches!(a, Action::Send(text) if text == b"chunk-two"));
    let (s, a) = s.step("GET", end());
    assert!(matches!(a, Action::Close { wind_down: true }));
    let (_, a) = s.step("GET", stdout(b"late"));
    assert!(matches!(a, Action::Close { wind_down: false }));
}

#[test]
fn a_failing_backend_breaks_the_body_off() {
    let (s, a) = Exchange::AwaitFeed.step("GET", complete(200, &[], b""));
    assert!(matches!(a, Action::Stream { first: None, .. }));
    let (s, a) = s.step(
        "GET",
        Event::ReadFailed(ProxyError::BackendProtocol { source: "early eof".to_owned() }),
    );
    assert!(matches!(a, Action::Break(text) if text == "backend protocol error: early eof"));
    assert!(matches!(s, Exchange::Closed));
    let (s, _) = Exchange::AwaitFeed.step("GET", complete(200, &[], b""));
    let (_, a) = s.step("GET", Event::ClientGone);
    assert!(matches!(a, Action::Close { wind_down: false }));
}

#[test]
fn a_failing_backend_before_the_head_fails_the_request() {
    let (s, a) = Exchange::AwaitRecord.step(
        "GET",
        Event::ReadFailed(ProxyError::BackendProtocol { source: "eof".to_owned() }),
    );
    assert!(matches!(a, Action::Fail(ProxyError::BackendProtocol { source }) if source == "eof"));
    assert!(matches!(s, Exchange::Closed));
    let (_, a) = Exchange::AwaitFeed.step("GET", Event::Fed(HeadFeed::TooLarge));
    assert!(matches!(
        a,
        Action::Fail(ProxyError::BackendProtocol { source })
            if source == "FPM response head exceeded the size limit"
    ));
}

#[test]
fn a_request_that_ends_without_a_head_is_still_answered() {
    let (s, a) = Exchange::AwaitRecord.step("GET", end());
    assert!(matches!(a, Action::Finish));
    let (_, a) = s.step("GET", Event::Finished(head(200, &[("X-A", "1")])));
    match a {
        Action::Settle(Ok(resp)) => assert_eq!(resp.headers.get("x-a").unwrap(), "1"),
        other => panic!("expected Settle, got {other:?}"),
    }
}

fn settled_length(action: Action) -> Option<String> {
    match action {
        Action::Settle(Ok(resp)) => resp
            .headers
            .get("content-length")
            .map(|v| v.to_str().unwrap().to_owned()),
        other => panic!("expected Settle, got {other:?}"),
    }
}

#[test]
fn a_head_response_is_drained_and_measured() {
    let (s, a) = Exchange::AwaitFeed.step("HEAD", complete(200, &[], b"hello"));
    assert!(matches!(a, Action::Read));
    let (s, a) = s.step("HEAD", stdout(b", world"));
    assert!(matches!(a, Action::Read));
    let (s, a) = s.step("HEAD", Event::Record(RecordType::Stderr, b"note".to_vec()));
    assert!(matches!(a, Action::Log(_)));
    let (_, a) = s.step("HEAD", end());
    assert_eq!(settled_length(a).as_deref(), Some("12"));
}

#[test]
fn a_status_without_a_body_is_drained_and_carries_no_length() {
    let (s, _) = Exchange::AwaitFeed.step("GET", complete(204, &[("X-Marker", "seen")], b""));
    let (s, _) = s.step("GET", stdout(b"ignored"));
    let (_, a) = s.step("GET", end());
    assert_eq!(settled_length(a), None);
}

#[test]
fn draining_stops_at_its_limit() {
    let (mut s, _) = Exchange::AwaitFeed.step("HEAD", complete(200, &[], b""));
    for _ in 0..8 {
        let (next, a) = s.step("HEAD", stdout(&vec![0; 1024 * 1024]));
        assert!(matches!(a, Action::Read));
        s = next;
    }
    let (s, a) = s.step("HEAD", stdout(b"x"));
    assert_eq!(settled_length(a), None);
    assert!(matches!(s, Exchange::Closed));
}
