use rt_doubao::net_client::{
    header_lines, resolve_ws_endpoint, ws_endpoint_from_parts, EndpointError, UrlParts, FrameBuffer, NetCommand, NetWorker, ReadOutcome,
};
use rt_doubao::config::WS_URL;
use rt_doubao::protocol::{
    create_start_session_message, marshal, Message, MsgType, MSG_TYPE_FLAG_WITH_EVENT,
};

fn frame(event: u32, payload: &[u8]) -> Vec<u8> {
    let mut m = Message::new(MsgType::FullServer);
    m.type_flag = MSG_TYPE_FLAG_WITH_EVENT;
    m.event = Some(event);
    m.session_id = Some("sid".to_string());
    m.payload = payload.to_vec();
    marshal(&m).unwrap()
}

#[test]
fn frames_split_anywhere_come_out_whole() {
    let mut stream = frame(150, b"{\"dialog_id\":\"d\"}");
    stream.extend(frame(359, b"{}"));
    stream.extend(frame(451, b"{\"text\":\"hi\"}"));
    for cut in 0..=stream.len() {
        let mut fb = FrameBuffer::new();
        let mut events = Vec::new();
        for m in fb.push(&stream[..cut]) {
            events.push(m.event.unwrap());
        }
        for m in fb.push(&stream[cut..]) {
            events.push(m.event.unwrap());
        }
        assert_eq!(events, vec![150, 359, 451], "cut at {}", cut);
    }
}

#[test]
fn undecodable_bytes_are_dropped() {
    let mut bad = vec![0x11, 0x94, 0x10, 0x00, 0, 0, 1, 44, 0, 0, 0, 1, 0xff];
    bad.extend([0, 0, 0, 0]);
    let mut fb = FrameBuffer::new();
    let mut input = frame(50 + 100, b"{}");
    input.extend(bad);
    let msgs = fb.push(&input);
    assert_eq!(msgs.len(), 1);
    // The buffer was cleared: a following frame decodes on its own.
    let msgs = fb.push(&frame(359, b""));
    assert_eq!(msgs.len(), 1);
    assert_eq!(msgs[0].event, Some(359));
}

#[test]
fn worker_reacts_to_reads_and_writes() {
    let mut w = NetWorker::new();
    assert!(w.is_running());
    let f = frame(152, b"{}");
    let msgs = w.on_read(ReadOutcome::Binary(f[..5].to_vec()));
    assert!(msgs.is_empty());
    let msgs = w.on_read(ReadOutcome::Binary(f[5..].to_vec()));
    assert_eq!(msgs.len(), 1);
    assert!(w.on_read(ReadOutcome::Text).is_empty());
    assert!(w.on_read(ReadOutcome::IoError).is_empty());
    assert!(w.is_running());
    w.on_write(true);
    assert!(w.is_running());
    w.on_write(false);
    assert!(!w.is_running());
    let mut w = NetWorker::new();
    w.on_read(ReadOutcome::Closed);
    assert!(!w.is_running());
    let mut w = NetWorker::new();
    w.on_read(ReadOutcome::Failed);
    assert!(!w.is_running());
}

#[test]
fn client_frames_decode_in_the_buffer() {
    let mut fb = FrameBuffer::new();
    let msgs = fb.push(&create_start_session_message("abc", "{}").unwrap());
    assert_eq!(msgs.len(), 1);
    assert_eq!(msgs[0].session_id.as_deref(), Some("abc"));
    assert_eq!(msgs[0].payload, b"{}".to_vec());
}

#[test]
fn service_endpoint() {
    let e = resolve_ws_endpoint(WS_URL).ok().unwrap();
    assert_eq!(e.host, "openspeech.bytedance.com");
    assert_eq!(e.port, 443);
    assert_eq!(e.path, "/api/v3/realtime/dialogue");
    assert_eq!(e.origin, "https://openspeech.bytedance.com");
    assert!(e.tls);
}

#[test]
fn plain_endpoint_with_query() {
    let e = resolve_ws_endpoint("ws://localhost:8080/a/b?x=1&y=2").ok().unwrap();
    assert_eq!(e.host, "localhost");
    assert_eq!(e.port, 8080);
    assert_eq!(e.path, "/a/b?x=1&y=2");
    assert_eq!(e.origin, "http://localhost");
    assert!(!e.tls);
}

#[test]
fn endpoint_errors() {
    assert!(matches!(resolve_ws_endpoint("not a url"), Err(EndpointError::UrlParse(_))));
    match resolve_ws_endpoint("https://example.com/x") {
        Err(EndpointError::UnsupportedScheme(s)) => assert_eq!(s, "https"),
        _ => panic!("expected an unsupported scheme"),
    }
    assert!(matches!(resolve_ws_endpoint("foo://example.com/x"), Err(EndpointError::MissingPort)));
    assert!(matches!(resolve_ws_endpoint("unix:/tmp/sock"), Err(EndpointError::MissingHost)));
}

#[test]
fn header_lines_join_name_and_value() {
    let headers = vec![
        ("X-Api-App-Key".to_string(), "key".to_string()),
        ("X-Empty".to_string(), String::new()),
    ];
    assert_eq!(header_lines(&headers), vec!["X-Api-App-Key: key".to_string(), "X-Empty: ".to_string()]);
    assert!(header_lines(&Vec::new()).is_empty());
}

#[test]
fn endpoint_from_given_parts() {
    let parts = UrlParts {
        scheme: "wss".to_string(),
        host: Some("h.example".to_string()),
        port: Some(9443),
        path: "/p".to_string(),
        query: Some("k=v".to_string()),
    };
    let e = ws_endpoint_from_parts(parts).ok().unwrap();
    assert_eq!(e.host, "h.example");
    assert_eq!(e.port, 9443);
    assert_eq!(e.path, "/p?k=v");
    assert_eq!(e.origin, "https://h.example");
    assert!(e.tls);
    let no_host = UrlParts {
        scheme: "ws".to_string(),
        host: None,
        port: Some(80),
        path: String::new(),
        query: None,
    };
    assert!(matches!(ws_endpoint_from_parts(no_host), Err(EndpointError::MissingHost)));
}

#[test]
fn byte_by_byte_arrival_gives_each_frame_once() {
    let mut stream = frame(150, b"{\"dialog_id\":\"d\"}");
    stream.extend(frame(352, b""));
    let partial = frame(451, b"{\"text\":\"hi\"}");
    stream.extend(&partial[..7]);
    let mut fb = FrameBuffer::new();
    let mut events = Vec::new();
    for b in &stream {
        for m in fb.push(std::slice::from_ref(b)) {
            events.push(m.event.unwrap());
        }
    }
    assert_eq!(events, vec![150, 352]);
    // The kept bytes of the unfinished frame are completed by the rest of it.
    let rest: Vec<u32> = fb.push(&partial[7..]).iter().map(|m| m.event.unwrap()).collect();
    assert_eq!(rest, vec![451]);
}

#[test]
fn worker_writes_only_while_running() {
    let mut w = NetWorker::new();
    assert_eq!(w.bytes_to_write(NetCommand::Bytes(vec![1, 2, 3])), Some(vec![1, 2, 3]));
    assert_eq!(w.bytes_to_write(NetCommand::Disconnect), None);
    w.on_write(false);
    assert_eq!(w.bytes_to_write(NetCommand::Bytes(vec![4])), None);
    // Once down, the connection stays down.
    w.on_write(true);
    assert!(!w.is_running());
    w.on_read(ReadOutcome::Binary(frame(359, b"{}")));
    assert!(!w.is_running());
    w.on_read(ReadOutcome::Pong);
    assert!(!w.is_running());
}
