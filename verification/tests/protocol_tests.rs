use rt_doubao::protocol::{
    create_audio_message, create_full_client_message, create_session_event_message,
    create_start_connection_message, create_start_session_message, generate_session_id, marshal,
    unmarshal, Message, MsgType, ProtocolError, MSG_TYPE_FLAG_NEGATIVE_SEQ,
    MSG_TYPE_FLAG_POSITIVE_SEQ, MSG_TYPE_FLAG_WITH_EVENT,
};

fn be(v: u32) -> Vec<u8> {
    v.to_be_bytes().to_vec()
}

#[test]
fn start_connection_frame_bytes() {
    let bytes = create_start_connection_message().unwrap();
    let mut expected = vec![0x11, 0x14, 0x10, 0x00];
    expected.extend(be(1));
    expected.extend(be(2));
    expected.extend(b"{}");
    assert_eq!(bytes, expected);
}

#[test]
fn start_session_frame_bytes() {
    let bytes = create_start_session_message("abc", "{\"a\":1}").unwrap();
    let mut expected = vec![0x11, 0x14, 0x10, 0x00];
    expected.extend(be(100));
    expected.extend(be(3));
    expected.extend(b"abc");
    expected.extend(be(7));
    expected.extend(b"{\"a\":1}");
    assert_eq!(bytes, expected);
}

#[test]
fn audio_frame_is_raw_and_carries_session() {
    let bytes = create_audio_message("s", &[1, 2, 3]).unwrap();
    let mut expected = vec![0x11, 0x24, 0x00, 0x00];
    expected.extend(be(200));
    expected.extend(be(1));
    expected.extend(b"s");
    expected.extend(be(3));
    expected.extend([1, 2, 3]);
    assert_eq!(bytes, expected);
}

#[test]
fn session_event_frames_by_event() {
    assert_eq!(
        create_session_event_message("x", "ignored", 1).unwrap(),
        create_start_connection_message().unwrap()
    );
    assert_eq!(
        create_session_event_message("sid", "{}", 100).unwrap(),
        create_start_session_message("sid", "{}").unwrap()
    );
    let bytes = create_session_event_message("sid", "{}", 102).unwrap();
    let mut expected = vec![0x11, 0x14, 0x10, 0x00];
    expected.extend(be(102));
    expected.extend(be(3));
    expected.extend(b"sid");
    expected.extend(be(2));
    expected.extend(b"{}");
    assert_eq!(bytes, expected);
    // Event 2 (finish connection) carries no session id.
    let bytes = create_session_event_message("sid", "{}", 2).unwrap();
    let mut expected = vec![0x11, 0x14, 0x10, 0x00];
    expected.extend(be(2));
    expected.extend(be(2));
    expected.extend(b"{}");
    assert_eq!(bytes, expected);
}

#[test]
fn connection_events_need_a_connect_id() {
    for e in [50u32, 51, 52] {
        let r = create_session_event_message("sid", "{}", e);
        assert!(matches!(r, Err(ProtocolError::MissingConnectId)));
    }
}

#[test]
fn marshal_reports_the_first_missing_field() {
    let mut m = Message::new(MsgType::FullClient);
    m.type_flag = MSG_TYPE_FLAG_WITH_EVENT;
    assert!(matches!(marshal(&m), Err(ProtocolError::MissingEvent)));
    m.event = Some(300);
    assert!(matches!(marshal(&m), Err(ProtocolError::MissingSessionId)));
    m.event = Some(51);
    assert!(matches!(marshal(&m), Err(ProtocolError::MissingConnectId)));
    m.connect_id = Some("c".to_string());
    m.type_flag = MSG_TYPE_FLAG_WITH_EVENT | MSG_TYPE_FLAG_POSITIVE_SEQ;
    assert!(matches!(marshal(&m), Err(ProtocolError::MissingSequence)));
    m.sequence = Some(7);
    assert!(marshal(&m).is_ok());
    let mut e = Message::new(MsgType::Error);
    e.type_flag = 0;
    assert!(matches!(marshal(&e), Err(ProtocolError::MissingErrorCode)));
    e.error_code = Some(45000001);
    assert!(marshal(&e).is_ok());
}

#[test]
fn roundtrip_every_field() {
    let mut m = Message::new(MsgType::FullServer);
    m.type_flag = MSG_TYPE_FLAG_WITH_EVENT | MSG_TYPE_FLAG_NEGATIVE_SEQ;
    m.event = Some(150);
    m.session_id = Some("会话-1".to_string());
    m.connect_id = Some("unused".to_string());
    m.sequence = Some(-5);
    m.payload = b"{\"dialog_id\":\"d1\"}".to_vec();
    let bytes = marshal(&m).unwrap();
    let mut with_tail = bytes.clone();
    with_tail.extend([9, 9, 9]);
    let (d, n) = unmarshal(&with_tail).unwrap();
    assert_eq!(n, bytes.len());
    assert_eq!(d.msg_type, MsgType::FullServer);
    assert_eq!(d.type_flag, 0b111);
    assert_eq!(d.event, Some(150));
    assert_eq!(d.session_id.as_deref(), Some("会话-1"));
    // Event 150 is no connection event: the connect id is not written.
    assert_eq!(d.connect_id, None);
    assert_eq!(d.sequence, Some(-5));
    assert_eq!(d.error_code, None);
    assert_eq!(d.payload, m.payload);
}

#[test]
fn roundtrip_error_and_connection_frames() {
    let mut e = Message::new(MsgType::Error);
    e.error_code = Some(0xdead_beef);
    e.payload = b"bad".to_vec();
    let bytes = marshal(&e).unwrap();
    let (d, n) = unmarshal(&bytes).unwrap();
    assert_eq!(n, bytes.len());
    assert_eq!(d.msg_type, MsgType::Error);
    assert_eq!(d.error_code, Some(0xdead_beef));
    assert_eq!(d.payload, b"bad".to_vec());

    let mut c = Message::new(MsgType::FullServer);
    c.type_flag = MSG_TYPE_FLAG_WITH_EVENT;
    c.event = Some(50);
    c.connect_id = Some("conn".to_string());
    c.session_id = Some("dropped".to_string());
    let bytes = marshal(&c).unwrap();
    let (d, _) = unmarshal(&bytes).unwrap();
    assert_eq!(d.event, Some(50));
    assert_eq!(d.connect_id.as_deref(), Some("conn"));
    assert_eq!(d.session_id, None);
    assert_eq!(d.payload, Vec::<u8>::new());
}

#[test]
fn high_flag_bits_are_dropped() {
    let mut m = Message::new(MsgType::AudioOnlyServer);
    m.type_flag = 0xf0;
    m.payload = vec![1];
    let bytes = marshal(&m).unwrap();
    assert_eq!(bytes[1], 0xb0);
    let (d, _) = unmarshal(&bytes).unwrap();
    assert_eq!(d.type_flag, 0);
    assert_eq!(d.msg_type, MsgType::AudioOnlyServer);
}

#[test]
fn unknown_type_decodes_as_invalid() {
    let mut bytes = vec![0x11, 0x30, 0x10, 0x00];
    bytes.extend(be(0));
    let (d, n) = unmarshal(&bytes).unwrap();
    assert_eq!(d.msg_type, MsgType::Invalid);
    assert_eq!(n, 8);
}

#[test]
fn unmarshal_errors() {
    assert!(matches!(unmarshal(&[0x11, 0x14, 0x10]), Err(ProtocolError::InsufficientData)));
    assert!(matches!(unmarshal(&[0x11, 0x14, 0x10, 0x00, 0, 0]), Err(ProtocolError::ReadOverflow)));
    let mut p = vec![0x11, 0x90, 0x10, 0x00];
    p.extend(be(5));
    p.extend([1, 2]);
    assert!(matches!(unmarshal(&p), Err(ProtocolError::PayloadOverflow)));
    let mut s = vec![0x11, 0x94, 0x10, 0x00];
    s.extend(be(300));
    s.extend(be(4));
    s.extend([b'a', b'b']);
    assert!(matches!(unmarshal(&s), Err(ProtocolError::ReadOverflow)));
    let mut u = vec![0x11, 0x94, 0x10, 0x00];
    u.extend(be(300));
    u.extend(be(2));
    u.extend([0xff, 0xfe]);
    u.extend(be(0));
    assert!(matches!(unmarshal(&u), Err(ProtocolError::Utf8DecodeError(_))));
}

#[test]
fn empty_session_id_is_empty_string() {
    let mut s = vec![0x11, 0x94, 0x10, 0x00];
    s.extend(be(300));
    s.extend(be(0));
    s.extend(be(0));
    let (d, n) = unmarshal(&s).unwrap();
    assert_eq!(d.session_id.as_deref(), Some(""));
    assert_eq!(n, s.len());
}

#[test]
fn msg_type_codes() {
    assert_eq!(MsgType::from_bits(1), MsgType::FullClient);
    assert_eq!(MsgType::from_bits(2), MsgType::AudioOnlyClient);
    assert_eq!(MsgType::from_bits(9), MsgType::FullServer);
    assert_eq!(MsgType::from_bits(11), MsgType::AudioOnlyServer);
    assert_eq!(MsgType::from_bits(12), MsgType::FrontEndResultServer);
    assert_eq!(MsgType::from_bits(15), MsgType::Error);
    assert_eq!(MsgType::from_bits(3), MsgType::Invalid);
    for t in [MsgType::Invalid, MsgType::FullClient, MsgType::Error, MsgType::AudioOnlyServer] {
        assert_eq!(MsgType::from_bits(t.bits()), t);
    }
}

#[test]
fn full_client_message_json_payload() {
    let bytes = create_full_client_message("s1", "a\"b").unwrap();
    let (d, n) = unmarshal(&bytes).unwrap();
    assert_eq!(n, bytes.len());
    assert_eq!(d.event, Some(0));
    assert_eq!(d.session_id.as_deref(), Some("s1"));
    assert_eq!(
        String::from_utf8(d.payload).unwrap(),
        "{\"session_id\":\"s1\",\"speaker\":\"zh_female_vv_jupiter_bigtts\",\"text\":\"a\\\"b\"}"
    );
}

#[test]
fn session_ids_are_v4_uuids() {
    let a = generate_session_id();
    let b = generate_session_id();
    assert_eq!(a.len(), 36);
    let chars: Vec<char> = a.chars().collect();
    for (i, c) in chars.iter().enumerate() {
        if i == 8 || i == 13 || i == 18 || i == 23 {
            assert_eq!(*c, '-');
        } else {
            assert!(c.is_ascii_hexdigit() && !c.is_ascii_uppercase());
        }
    }
    assert_eq!(chars[14], '4');
    assert!(matches!(chars[19], '8' | '9' | 'a' | 'b'));
    assert_ne!(a, b);
}

#[test]
fn protocol_errors_describe_themselves() {
    assert_eq!(ProtocolError::InsufficientData.to_string(), "数据长度不足");
    assert_eq!(ProtocolError::ReadOverflow.to_string(), "越界读取");
    assert_eq!(ProtocolError::MissingConnectId.to_string(), "缺少 connect_id");
    let bad = vec![0xffu8, 0xfe];
    let utf8_err = std::str::from_utf8(&bad).unwrap_err();
    let e: ProtocolError = utf8_err.into();
    assert!(matches!(e, ProtocolError::Utf8DecodeError(_)));
    let text = e.to_string();
    assert!(text.starts_with("utf8 解码失败: "));
    assert!(text.len() > "utf8 解码失败: ".len());
}

#[test]
fn client_messages_read_back_as_sent() {
    let bytes = create_audio_message("sess", &[9, 8, 7, 6]).unwrap();
    let (m, n) = unmarshal(&bytes).unwrap();
    assert_eq!(n, bytes.len());
    assert_eq!(m.msg_type, MsgType::AudioOnlyClient);
    assert_eq!(m.type_flag, MSG_TYPE_FLAG_WITH_EVENT);
    assert_eq!(m.event, Some(200));
    assert_eq!(m.session_id.as_deref(), Some("sess"));
    assert_eq!(m.connect_id, None);
    assert_eq!(m.payload, vec![9, 8, 7, 6]);

    let bytes = create_session_event_message("会话", "{\"a\":1}", 300).unwrap();
    let (m, n) = unmarshal(&bytes).unwrap();
    assert_eq!(n, bytes.len());
    assert_eq!(m.msg_type, MsgType::FullClient);
    assert_eq!(m.event, Some(300));
    assert_eq!(m.session_id.as_deref(), Some("会话"));
    assert_eq!(m.payload, b"{\"a\":1}".to_vec());
}

#[test]
fn truncated_frames_ask_for_more_bytes() {
    let bytes = create_session_event_message("会话", "{\"a\":1}", 300).unwrap();
    for k in 0..bytes.len() {
        match unmarshal(&bytes[..k]) {
            Err(ProtocolError::InsufficientData)
            | Err(ProtocolError::ReadOverflow)
            | Err(ProtocolError::PayloadOverflow) => {}
            other => panic!("prefix of {} bytes gave {:?}", k, other.map(|(_, n)| n)),
        }
    }
}

#[test]
fn decoded_frames_encode_back_to_their_bytes() {
    for bytes in [
        create_start_connection_message().unwrap(),
        create_start_session_message("sid-1", "{\"x\":[1,2]}").unwrap(),
        create_session_event_message("会话", "", 102).unwrap(),
    ] {
        let (m, n) = unmarshal(&bytes).unwrap();
        assert_eq!(n, bytes.len());
        assert_eq!(marshal(&m).unwrap(), bytes);
    }
}

#[test]
fn full_client_message_escapes_text() {
    let bytes = create_full_client_message("s", "\\\n\t\u{8}\u{c}\r\u{1}\u{1f}/é\u{7f}").unwrap();
    let (d, _) = unmarshal(&bytes).unwrap();
    assert_eq!(
        String::from_utf8(d.payload).unwrap(),
        "{\"session_id\":\"s\",\"speaker\":\"zh_female_vv_jupiter_bigtts\",\"text\":\"\\\\\\n\\t\\b\\f\\r\\u0001\\u001f/é\u{7f}\"}"
    );
}
