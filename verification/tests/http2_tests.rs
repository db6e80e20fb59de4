use candy::http2::has_unfinished_size_update;
use candy::http2::{
    build_data_frame, build_goaway, build_headers_frame, build_initial_settings,
    build_push_promise, build_rst_stream, build_settings_ack, build_window_update,
    parse_frame_header, parse_settings, parse_window_update, Connection, FrameType, H2Error,
    H2ErrorCode, Settings, SettingsParameter, Stream, StreamState, CONNECTION_PREFACE,
    headers_from_list, HpackDecoder, HpackEncoder, h2_on_frame, FrameHeader, FrameReply,
};
use candy::web::parser::{HttpVersion, Method};
use candy::worker::{
    h2_headers_request, h2_push_paths, h2_push_reply, h2_push_request_headers, h2_reply, h2_request,
    h2_response_headers,
};
use candy::web::response::Response;

#[test]
fn test_frame_type_from_u8() {
    assert_eq!(FrameType::from_u8(0x00), FrameType::Data);
    assert_eq!(FrameType::from_u8(0x01), FrameType::Headers);
    assert_eq!(FrameType::from_u8(0x04), FrameType::Settings);
    assert_eq!(FrameType::from_u8(0xFF), FrameType::Unknown(0xFF));
}

#[test]
fn test_parse_frame_header_incomplete() {
    let data = [0x00, 0x00, 0x04];
    let result = parse_frame_header(&data);
    assert!(matches!(result, Err(H2Error::Incomplete)));
}

#[test]
fn test_parse_frame_header_settings() {
    let data = [0x00, 0x00, 0x00, 0x04, 0x00, 0x00, 0x00, 0x00, 0x00];
    let result = parse_frame_header(&data).unwrap();
    assert_eq!(result.length, 0);
    assert_eq!(result.frame_type, FrameType::Settings);
    assert_eq!(result.flags, 0);
    assert_eq!(result.stream_id, 0);
}

#[test]
fn test_parse_frame_header_data() {
    let data = [0x00, 0x00, 0x05, 0x00, 0x01, 0x00, 0x00, 0x00, 0x01];
    let result = parse_frame_header(&data).unwrap();
    assert_eq!(result.length, 5);
    assert_eq!(result.frame_type, FrameType::Data);
    assert_eq!(result.flags, 0x01);
    assert_eq!(result.stream_id, 1);
}

#[test]
fn test_settings_default() {
    let settings = Settings::default();
    assert_eq!(settings.header_table_size, 4096);
    assert!(settings.enable_push);
    assert_eq!(settings.initial_window_size, 65535);
    assert_eq!(settings.max_frame_size, 16384);
}

#[test]
fn test_parse_settings_empty() {
    let data: &[u8] = &[];
    let result = parse_settings(data).unwrap();
    let default = Settings::default();
    assert_eq!(result.header_table_size, default.header_table_size);
}

#[test]
fn test_parse_settings_enable_push() {
    let data = [0x00, 0x02, 0x00, 0x00, 0x00, 0x00];
    let result = parse_settings(&data).unwrap();
    assert!(!result.enable_push);
}

#[test]
fn test_parse_settings_max_frame_size() {
    let data = [0x00, 0x05, 0x00, 0x01, 0x00, 0x00];
    let result = parse_settings(&data).unwrap();
    assert_eq!(result.max_frame_size, 65536);
}

#[test]
fn test_build_settings_ack() {
    let frame = build_settings_ack();
    assert_eq!(frame.len(), 9);
    let header = parse_frame_header(&frame).unwrap();
    assert_eq!(header.frame_type, FrameType::Settings);
    assert_eq!(header.flags, 0x01);
}

#[test]
fn test_build_initial_settings() {
    let frame = build_initial_settings();
    assert_eq!(frame.len(), 27);
    let header = parse_frame_header(&frame).unwrap();
    assert_eq!(header.frame_type, FrameType::Settings);
    assert_eq!(header.length, 18);
}

#[test]
fn test_connection_preface() {
    assert_eq!(&CONNECTION_PREFACE, b"PRI * HTTP/2.0\r\n\r\nSM\r\n\r\n");
    assert_eq!(CONNECTION_PREFACE.len(), 24);
}

#[test]
fn test_settings_parameter_from_u16() {
    assert_eq!(SettingsParameter::from_u16(0x01), SettingsParameter::HeaderTableSize);
    assert_eq!(SettingsParameter::from_u16(0x05), SettingsParameter::MaxFrameSize);
    assert_eq!(SettingsParameter::from_u16(0xFF), SettingsParameter::Unknown(0xFF));
}

#[test]
fn test_stream_new() {
    let stream = Stream::new(1);
    assert_eq!(stream.id, 1);
    assert_eq!(stream.state, StreamState::Idle);
    assert_eq!(stream.send_window, 65535);
    assert_eq!(stream.recv_window, 65535);
}

#[test]
fn test_stream_transition_idle_to_open() {
    let mut stream = Stream::new(1);
    assert!(stream.transition(StreamState::Open));
    assert_eq!(stream.state, StreamState::Open);
}

#[test]
fn test_stream_transition_open_to_half_closed() {
    let mut stream = Stream::new(1);
    stream.state = StreamState::Open;
    assert!(stream.transition(StreamState::HalfClosedLocal));
    assert_eq!(stream.state, StreamState::HalfClosedLocal);
}

#[test]
fn test_stream_can_send() {
    let mut stream = Stream::new(1);
    assert!(!stream.can_send());
    stream.state = StreamState::Open;
    assert!(stream.can_send());
    stream.send_window = 0;
    assert!(!stream.can_send());
}

#[test]
fn test_stream_can_receive() {
    let mut stream = Stream::new(1);
    assert!(!stream.can_receive());
    stream.state = StreamState::Open;
    assert!(stream.can_receive());
    stream.state = StreamState::HalfClosedLocal;
    assert!(stream.can_receive());
}

#[test]
fn test_connection_new() {
    let conn = Connection::new();
    assert_eq!(conn.active_stream_count(), 0);
}

#[test]
fn test_connection_create_server_stream() {
    let mut conn = Connection::new();
    let id = conn.create_server_stream();
    assert_eq!(id, 2);
    let id2 = conn.create_server_stream();
    assert_eq!(id2, 4);
    assert_eq!(conn.active_stream_count(), 2);
}

#[test]
fn test_connection_accept_client_stream() {
    let mut conn = Connection::new();
    let stream = conn.accept_client_stream(1);
    assert!(stream.is_some());
    assert_eq!(stream.unwrap().id, 1);
    let stream2 = conn.accept_client_stream(1);
    assert!(stream2.is_none());
    let stream3 = conn.accept_client_stream(3);
    assert!(stream3.is_some());
    let stream4 = conn.accept_client_stream(4);
    assert!(stream4.is_none());
}

#[test]
fn test_connection_close_stream() {
    let mut conn = Connection::new();
    conn.create_server_stream();
    conn.close_stream(2);
    let stream = conn.get_stream(2).unwrap();
    assert_eq!(stream.state, StreamState::Closed);
}

#[test]
fn test_connection_update_peer_settings() {
    let mut conn = Connection::new();
    let mut settings = Settings::default();
    settings.enable_push = false;
    settings.max_frame_size = 65536;
    conn.update_peer_settings(settings);
    assert!(!conn.peer_settings.enable_push);
    assert_eq!(conn.peer_settings.max_frame_size, 65536);
}

#[test]
fn test_connection_window() {
    let conn = Connection::new();
    assert_eq!(conn.connection_send_window, 65535);
    assert_eq!(conn.connection_recv_window, 65535);
}

#[test]
fn test_connection_update_send_window() {
    let mut conn = Connection::new();
    conn.update_connection_send_window(1000).unwrap();
    assert_eq!(conn.connection_send_window, 66535);
}

#[test]
fn test_connection_consume_send_window() {
    let mut conn = Connection::new();
    conn.consume_connection_send_window(1000);
    assert_eq!(conn.connection_send_window, 64535);
}

#[test]
fn test_parse_window_update() {
    let data = [0x00, 0x00, 0x03, 0xE8];
    let result = parse_window_update(&data).unwrap();
    assert_eq!(result, 1000);
}

#[test]
fn test_parse_window_update_incomplete() {
    let data = [0x00, 0x00];
    let result = parse_window_update(&data);
    assert!(matches!(result, Err(H2Error::Incomplete)));
}

#[test]
fn test_parse_window_update_zero() {
    let data = [0x00, 0x00, 0x00, 0x00];
    let result = parse_window_update(&data);
    assert!(matches!(result, Err(H2Error::InvalidSettings)));
}

#[test]
fn test_build_window_update() {
    let frame = build_window_update(0, 1000);
    assert_eq!(frame.len(), 13);
    let header = parse_frame_header(&frame).unwrap();
    assert_eq!(header.frame_type, FrameType::WindowUpdate);
    assert_eq!(header.stream_id, 0);
    assert_eq!(header.length, 4);
    let increment = parse_window_update(&frame[9..]).unwrap();
    assert_eq!(increment, 1000);
}

#[test]
fn test_build_push_promise() {
    let headers: &[u8] = b"test-headers";
    let frame = build_push_promise(1, 2, headers);
    let header = parse_frame_header(&frame).unwrap();
    assert_eq!(header.frame_type, FrameType::PushPromise);
    assert_eq!(header.stream_id, 1);
    assert_eq!(header.length, 4 + headers.len() as u32);
    let promised_id = (((frame[9] as u32) & 0x7F) << 24)
        | ((frame[10] as u32) << 16)
        | ((frame[11] as u32) << 8)
        | (frame[12] as u32);
    assert_eq!(promised_id, 2);
}

#[test]
fn frames_round_trip_through_header_parse() {
    let f = build_headers_frame(5, b"abc", true);
    let h = parse_frame_header(&f).unwrap();
    assert_eq!((h.length, h.frame_type, h.flags, h.stream_id), (3, FrameType::Headers, 0x05, 5));
    let d = build_data_frame(7, b"hello", false);
    let h = parse_frame_header(&d).unwrap();
    assert_eq!((h.length, h.frame_type, h.flags, h.stream_id), (5, FrameType::Data, 0x00, 7));
    assert_eq!(&d[9..], b"hello");
    let r = build_rst_stream(3, H2ErrorCode::Cancel.code());
    assert_eq!(parse_frame_header(&r).unwrap().frame_type, FrameType::RstStream);
    assert_eq!(&r[9..], &[0, 0, 0, 8]);
    let g = build_goaway(9, 1);
    assert_eq!(parse_frame_header(&g).unwrap().length, 8);
    assert_eq!(&g[9..], &[0, 0, 0, 9, 0, 0, 0, 1]);
}

#[test]
fn client_streams_must_grow_and_be_odd() {
    let mut conn = Connection::new();
    assert!(conn.accept_client_stream(5).is_some());
    assert!(conn.accept_client_stream(3).is_none());
    assert!(conn.accept_client_stream(0).is_none());
    assert!(conn.accept_client_stream(7).is_some());
    // accepted streams are not closed yet, so they count as active
    assert_eq!(conn.active_stream_count(), 2);
    conn.close_stream(5);
    assert_eq!(conn.active_stream_count(), 1);
}

#[test]
fn settings_errors() {
    // a length that is not a multiple of six
    assert_eq!(parse_settings(&[0, 1, 0]).unwrap_err(), H2Error::InvalidSettings);
    // any non-zero ENABLE_PUSH turns push on
    assert!(parse_settings(&[0, 2, 0, 0, 0, 2]).unwrap().enable_push);
    // unknown identifiers are ignored
    assert_eq!(parse_settings(&[0, 0x7f, 0, 0, 0, 9]).unwrap(), Settings::default());
    // MAX_FRAME_SIZE below 16384
    assert_eq!(parse_settings(&[0, 5, 0, 0, 0x10, 0]).unwrap_err(), H2Error::InvalidSettings);
    // an error in an earlier entry stands even when later ones are fine
    assert_eq!(
        parse_settings(&[0, 5, 0, 0, 0, 0, 0, 2, 0, 0, 0, 0]).unwrap_err(),
        H2Error::InvalidSettings
    );
}

#[test]
fn stream_window_update_overflow_is_refused() {
    let mut conn = Connection::new();
    let id = conn.create_server_stream();
    assert!(conn.update_stream_send_window(id, 0x7FFF_FFFF).is_err());
    assert!(conn.update_stream_send_window(id, 1).is_ok());
    assert_eq!(conn.get_stream(id).unwrap().send_window, 65536);
}

#[test]
fn hpack_round_trip_keeps_last_value_per_name() {
    let mut enc = HpackEncoder::new(4096);
    let mut dec = HpackDecoder::new(4096);
    let headers = vec![
        (":status".to_string(), "200".to_string()),
        ("content-type".to_string(), "text/html".to_string()),
        ("x-a".to_string(), "1".to_string()),
        ("x-a".to_string(), "2".to_string()),
    ];
    let block = enc.encode_headers(&headers);
    assert!(block.len() >= headers.len());
    let table = dec.decode_headers(&block).unwrap();
    assert_eq!(
        table,
        vec![
            (":status".to_string(), "200".to_string()),
            ("content-type".to_string(), "text/html".to_string()),
            ("x-a".to_string(), "2".to_string()),
        ]
    );
}

#[test]
fn hpack_decode_rejects_bad_index() {
    let mut dec = HpackDecoder::new(4096);
    assert_eq!(dec.decode_headers(&[0xbf]), Err(H2Error::InvalidSettings));
}

#[test]
fn headers_from_list_decodes_text_and_replaces() {
    let list = vec![
        (b"a".to_vec(), b"1".to_vec()),
        (vec![0xff], b"x".to_vec()),
        (b"a".to_vec(), b"3".to_vec()),
    ];
    assert_eq!(
        headers_from_list(&list),
        vec![("a".to_string(), "3".to_string()), ("\u{fffd}".to_string(), "x".to_string())]
    );
}

fn fh(frame_type: FrameType, flags: u8, stream_id: u32, length: u32) -> FrameHeader {
    FrameHeader { length, frame_type, flags, stream_id }
}

#[test]
fn frame_step_replies() {
    let mut c = Connection::new();
    // SETTINGS: taken and acknowledged; an ACK needs nothing
    let payload = [0u8, 4, 0, 0, 0x10, 0];
    assert_eq!(h2_on_frame(&mut c, fh(FrameType::Settings, 0, 0, 6), &payload), FrameReply::Send(build_settings_ack()));
    assert_eq!(c.peer_settings.initial_window_size, 4096);
    assert_eq!(h2_on_frame(&mut c, fh(FrameType::Settings, 1, 0, 0), &[]), FrameReply::Nothing);
    // PING echoed with ACK
    let ping = [1u8, 2, 3, 4, 5, 6, 7, 8];
    let mut expected = vec![0u8, 0, 8, 6, 1, 0, 0, 0, 0];
    expected.extend_from_slice(&ping);
    assert_eq!(h2_on_frame(&mut c, fh(FrameType::Ping, 0, 0, 8), &ping), FrameReply::Send(expected));
    assert_eq!(h2_on_frame(&mut c, fh(FrameType::Headers, 4, 1, 0), &[]), FrameReply::Request);
    assert_eq!(h2_on_frame(&mut c, fh(FrameType::GoAway, 0, 0, 8), &[0; 8]), FrameReply::Close);
    assert_eq!(h2_on_frame(&mut c, fh(FrameType::Data, 0, 1, 0), &[]), FrameReply::Nothing);
}

#[test]
fn frame_step_window_updates() {
    let mut c = Connection::new();
    assert_eq!(h2_on_frame(&mut c, fh(FrameType::WindowUpdate, 0, 0, 4), &[0, 0, 0, 100]), FrameReply::Nothing);
    assert_eq!(c.connection_send_window, 65635);
    let big = [0x7fu8, 0xff, 0xff, 0xff];
    assert_eq!(
        h2_on_frame(&mut c, fh(FrameType::WindowUpdate, 0, 0, 4), &big),
        FrameReply::Fail(build_goaway(0, 3))
    );
    assert_eq!(c.connection_send_window, 65635);
    c.accept_client_stream(1);
    assert_eq!(
        h2_on_frame(&mut c, fh(FrameType::WindowUpdate, 0, 1, 4), &big),
        FrameReply::Send(build_rst_stream(1, 3))
    );
    assert_eq!(h2_on_frame(&mut c, fh(FrameType::RstStream, 0, 1, 4), &[0, 0, 0, 8]), FrameReply::Nothing);
    assert_eq!(c.get_stream(1).unwrap().state, StreamState::Closed);
}

fn table(pairs: &[(&str, &str)]) -> Vec<(String, String)> {
    pairs.iter().map(|(k, v)| (k.to_string(), v.to_string())).collect()
}

#[test]
fn h2_request_from_header_table() {
    let r = h2_request(&table(&[(":method", "HEAD"), (":path", "/x"), (":scheme", "https"), ("accept", "*/*")]));
    assert_eq!(r.method, Method::HEAD);
    assert_eq!(r.path, b"/x".to_vec());
    assert_eq!(r.version, HttpVersion::Http11);
    assert_eq!(r.headers, vec![(b"accept".to_vec(), b"*/*".to_vec())]);
    let r = h2_request(&table(&[(":method", "PUT")]));
    assert_eq!(r.method, Method::POST);
    assert_eq!(r.path, b"/".to_vec());
    assert_eq!(h2_request(&[]).method, Method::GET);
}

#[test]
fn h2_response_and_push_tables() {
    assert_eq!(
        h2_response_headers(200, "text/html", 12),
        table(&[(":status", "200"), ("content-type", "text/html"), ("content-length", "12")])
    );
    assert_eq!(
        h2_push_request_headers("/a.css"),
        table(&[(":method", "GET"), (":path", "/a.css"), (":scheme", "https"), (":authority", "localhost")])
    );
    let html = b"<link rel=\"stylesheet\" href=\"/a.css\">\n<script src=\"/b.js\"></script>";
    let h = table(&[("content-type", "text/html; charset=utf-8")]);
    assert_eq!(h2_push_paths(true, &h, html), vec!["/a.css".to_string(), "/b.js".to_string()]);
    assert!(h2_push_paths(false, &h, html).is_empty());
    assert!(h2_push_paths(true, &table(&[("content-type", "text/plain")]), html).is_empty());
    assert!(h2_push_paths(true, &h, b"").is_empty());
}

#[test]
fn stream_send_window_spending() {
    let mut c = Connection::new();
    c.accept_client_stream(3);
    c.consume_stream_send_window(3, 100);
    assert_eq!(c.get_stream(3).unwrap().send_window, 65435);
    c.consume_stream_send_window(3, 70000);
    assert_eq!(c.get_stream(3).unwrap().send_window, 0);
    assert!(c.get_stream_mut(3).is_some());
    assert!(c.get_stream_mut(5).is_none());
}

#[test]
fn empty_header_block_decodes_to_no_headers() {
    let mut dec = HpackDecoder::new(4096);
    assert_eq!(dec.decode_headers(&[]), Ok(Vec::new()));
}

#[test]
fn unfinished_size_updates_are_found() {
    assert!(has_unfinished_size_update(&[0x3f]));
    assert!(has_unfinished_size_update(&[0x82, 0x3f, 0x80]));
    assert!(has_unfinished_size_update(&[0x3f, 0x80, 0x80, 0x80, 0x80, 0x01]));
    assert!(!has_unfinished_size_update(&[]));
    assert!(!has_unfinished_size_update(&[0x3f, 0xe1, 0x1f]));
    assert!(!has_unfinished_size_update(&[0x82, 0x84]));
    // a literal whose value runs past the block stops the walk: the decoder fails there
    assert!(!has_unfinished_size_update(&[0x00, 0x01, b'a', 0x05, b'b', 0x3f]));
    // a literal with a literal name, then an unfinished size update
    assert!(has_unfinished_size_update(&[0x00, 0x01, b'a', 0x01, b'b', 0x3f]));
    let mut dec = HpackDecoder::new(4096);
    let block = [0x3f, 0xe1, 0x1f, 0x82];
    assert!(!has_unfinished_size_update(&block));
    let table = dec.decode_headers(&block).unwrap();
    assert_eq!(table, vec![(":method".to_string(), "GET".to_string())]);
}

#[test]
fn server_stream_ids_count_up_by_two_across_other_calls() {
    let mut conn = Connection::new();
    assert_eq!(conn.create_server_stream(), 2);
    assert!(conn.accept_client_stream(1).is_some());
    conn.close_stream(2);
    assert_eq!(conn.create_server_stream(), 4);
    let _ = conn.update_connection_send_window(10);
    assert_eq!(conn.create_server_stream(), 6);
    assert_eq!(conn.active_stream_count(), 3);
}

#[test]
fn headers_frame_opens_stream_and_builds_request() {
    let mut conn = Connection::new();
    let mut enc = HpackEncoder::new(4096);
    let mut dec = HpackDecoder::new(4096);
    let block = enc.encode_headers(&table(&[(":method", "HEAD"), (":path", "/index.html"), ("accept", "*/*")]));
    let req = h2_headers_request(&mut conn, &mut dec, 1, &block).unwrap();
    assert_eq!(req.method, Method::HEAD);
    assert_eq!(req.path, b"/index.html".to_vec());
    assert_eq!(req.headers, vec![(b"accept".to_vec(), b"*/*".to_vec())]);
    assert_eq!(conn.get_stream(1).unwrap().state, StreamState::Idle);
    // an even or an old identifier is refused and nothing changes
    assert_eq!(h2_headers_request(&mut conn, &mut dec, 2, &block).err(), Some(H2Error::InvalidStreamId));
    assert_eq!(h2_headers_request(&mut conn, &mut dec, 1, &block).err(), Some(H2Error::InvalidStreamId));
    assert!(conn.get_stream(2).is_none());
    // a block that does not decode
    assert_eq!(h2_headers_request(&mut conn, &mut dec, 3, &[0xbf]).err(), Some(H2Error::InvalidSettings));
}

#[test]
fn reply_frames_carry_headers_and_body() {
    let mut enc = HpackEncoder::new(4096);
    let mut check = HpackEncoder::new(4096);
    let resp = Response::new(200).header("Content-Type", "text/plain").body(b"hello".to_vec());
    let (frames, pushes) = h2_reply(&mut enc, 1, true, resp);
    let block = check.encode_headers(&table(&[(":status", "200"), ("content-type", "text/plain"), ("content-length", "5")]));
    let mut expected = build_headers_frame(1, &block, false);
    expected.extend_from_slice(&build_data_frame(1, b"hello", true));
    assert_eq!(frames, expected);
    assert!(pushes.is_empty());
    // the decoder reads the header block back
    let mut dec = HpackDecoder::new(4096);
    assert_eq!(
        dec.decode_headers(&frames[9..9 + block.len()]).unwrap(),
        table(&[(":status", "200"), ("content-type", "text/plain"), ("content-length", "5")])
    );
}

#[test]
fn empty_reply_ends_stream_in_headers_frame() {
    let mut enc = HpackEncoder::new(4096);
    let mut check = HpackEncoder::new(4096);
    let (frames, _) = h2_reply(&mut enc, 3, false, Response::new(404));
    let block = check.encode_headers(&table(&[
        (":status", "404"),
        ("content-type", "application/octet-stream"),
        ("content-length", "0"),
    ]));
    assert_eq!(frames, build_headers_frame(3, &block, true));
}

#[test]
fn html_reply_lists_push_paths() {
    let mut enc = HpackEncoder::new(4096);
    let html = b"<link rel=\"stylesheet\" href=\"/a.css\">".to_vec();
    let resp = Response::new(200).header("Content-Type", "text/html; charset=utf-8").body(html);
    let (_, pushes) = h2_reply(&mut enc, 1, true, resp);
    assert_eq!(pushes, vec!["/a.css".to_string()]);
}

#[test]
fn pushed_resource_frames() {
    let mut enc = HpackEncoder::new(4096);
    let mut check = HpackEncoder::new(4096);
    let frames = h2_push_reply(&mut enc, 2, "/srv/www/a.css", b"body{}");
    let block = check.encode_headers(&table(&[(":status", "200"), ("content-type", "text/css; charset=utf-8"), ("content-length", "6")]));
    let mut expected = build_headers_frame(2, &block, false);
    expected.extend_from_slice(&build_data_frame(2, b"body{}", true));
    assert_eq!(frames, expected);
}
