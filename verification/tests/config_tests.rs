use rt_doubao::config::{new_config_from_args, Args, InputMode, RuntimeConfig};
use rt_doubao::request_payloads::{
    create_extra_map, start_session_extra, start_session_tts, AudioConfig, ExtraValue,
    SayHelloPayload, TtsPayload,
};
use rt_doubao::rt_service::{
    classify_event, classify_server_message, connect_headers, session_started_event, session_started_notice,
    ServerAction, ServerEvent,
};
use rt_doubao::protocol::{Message, MsgType};
use rt_doubao::sound::PcmFormat;

fn args(mode: &str, format: &str) -> Args {
    Args {
        mode: mode.to_string(),
        format: format.to_string(),
        app_id: "id".to_string(),
        access_key: "ak".to_string(),
        app_key: "key".to_string(),
    }
}

#[test]
fn names_of_modes_and_formats() {
    assert_eq!(InputMode::Audio.as_str(), "audio");
    assert_eq!(InputMode::Text.as_str(), "text");
    assert_eq!(InputMode::KeepAlive.as_str(), "keep_alive");
    assert_eq!(PcmFormat::PcmF32le.as_str(), "pcm");
    assert_eq!(PcmFormat::PcmS16le.as_str(), "pcm_s16le");
    for m in [InputMode::Audio, InputMode::Text, InputMode::KeepAlive] {
        assert_eq!(InputMode::parse(m.as_str()), Some(m));
    }
    for f in [PcmFormat::PcmF32le, PcmFormat::PcmS16le] {
        assert_eq!(PcmFormat::parse(f.as_str()), Some(f));
    }
    assert_eq!(InputMode::parse("Audio"), None);
    assert_eq!(PcmFormat::parse("pcm_f32le"), None);
}

#[test]
fn config_from_keys_and_args() {
    let c = RuntimeConfig::new_from_keys("a".into(), "b".into(), "c".into());
    assert_eq!((c.app_id.as_str(), c.access_key.as_str(), c.app_key.as_str()), ("a", "b", "c"));
    assert_eq!(c.mode, InputMode::Audio);
    assert_eq!(c.pcm_format, PcmFormat::PcmF32le);
    let c = RuntimeConfig::new("a".into(), "b".into(), "c".into(), InputMode::Text, PcmFormat::PcmS16le);
    assert_eq!(c.mode, InputMode::Text);
    assert_eq!(c.pcm_format, PcmFormat::PcmS16le);
    let c = new_config_from_args(args("keep_alive", "pcm_s16le")).unwrap();
    assert_eq!(c.mode, InputMode::KeepAlive);
    assert_eq!(c.pcm_format, PcmFormat::PcmS16le);
    assert_eq!(c.app_id, "id");
    assert!(new_config_from_args(args("voice", "pcm")).is_none());
    assert!(new_config_from_args(args("text", "wav")).is_none());
}

#[test]
fn payload_defaults() {
    let a = AudioConfig::default();
    assert_eq!((a.channel, a.format.as_str(), a.sample_rate), (1, "pcm_s16le", 24000));
    let t = TtsPayload::default();
    assert_eq!(t.speaker, "zh_female_vv_jupiter_bigtts");
    let c = RuntimeConfig::new_from_keys("a".into(), "b".into(), "c".into());
    assert_eq!(start_session_tts(&c).audio_config.format, "pcm");
    assert_eq!(SayHelloPayload::greeting().content, "你好，我是豆包，有什么可以帮助你的吗？");
}

#[test]
fn extra_settings() {
    let extra = create_extra_map("text");
    let keys: Vec<&str> = extra.iter().map(|(k, _)| k.as_str()).collect();
    assert_eq!(keys, vec!["strict_audit", "audit_response", "input_mod", "model"]);
    assert!(matches!(extra[0].1, ExtraValue::Bool(false)));
    match &extra[2].1 {
        ExtraValue::Str(s) => assert_eq!(s, "text"),
        _ => panic!("input_mod is a string"),
    }
    match &extra[3].1 {
        ExtraValue::Str(s) => assert_eq!(s, "O"),
        _ => panic!("model is a string"),
    }
    let c = RuntimeConfig::new_from_keys("a".into(), "b".into(), "c".into());
    match &start_session_extra(&c)[2].1 {
        ExtraValue::Str(s) => assert_eq!(s, "audio"),
        _ => panic!("input_mod is a string"),
    }
}

#[test]
fn server_messages_are_classified() {
    assert_eq!(classify_event(Some(50)), ServerEvent::ConnectionStarted);
    assert_eq!(classify_event(Some(51)), ServerEvent::ConnectionFailed);
    assert_eq!(classify_event(Some(52)), ServerEvent::ConnectionFinished);
    assert_eq!(classify_event(Some(150)), ServerEvent::SessionStarted);
    assert_eq!(classify_event(Some(152)), ServerEvent::SessionFinished);
    assert_eq!(classify_event(Some(153)), ServerEvent::SessionFinished);
    assert_eq!(classify_event(Some(359)), ServerEvent::TtsEnded);
    assert_eq!(classify_event(Some(450)), ServerEvent::AsrInfo);
    assert_eq!(classify_event(Some(451)), ServerEvent::AsrResponse);
    assert_eq!(classify_event(Some(999)), ServerEvent::Other);
    assert_eq!(classify_event(None), ServerEvent::Other);
    let mut m = Message::new(MsgType::FullServer);
    m.event = Some(150);
    assert_eq!(classify_server_message(&m), ServerAction::Event(ServerEvent::SessionStarted));
    let mut a = Message::new(MsgType::AudioOnlyServer);
    assert_eq!(classify_server_message(&a), ServerAction::Ignore);
    a.payload = vec![0, 1];
    assert_eq!(classify_server_message(&a), ServerAction::PlayAudio);
    assert_eq!(classify_server_message(&Message::new(MsgType::Error)), ServerAction::ReportError);
    assert_eq!(classify_server_message(&Message::new(MsgType::FullClient)), ServerAction::Ignore);
}

#[test]
fn only_named_dialogs_start_sessions() {
    assert_eq!(session_started_event(Some("d1".to_string())).unwrap().dialog_id, "d1");
    assert!(session_started_event(Some(String::new())).is_none());
    assert!(session_started_event(None).is_none());
}

#[test]
fn session_started_payload_names_the_dialog() {
    let ev = session_started_notice(br#"{"dialog_id":"abc-123","other":1}"#).unwrap();
    assert_eq!(ev.dialog_id, "abc-123");
    assert!(session_started_notice(br#"{"dialog_id":""}"#).is_none());
    assert!(session_started_notice(br#"{"dialog_id":42}"#).is_none());
    assert!(session_started_notice(br#"{"other":"x"}"#).is_none());
    assert!(session_started_notice(b"not json").is_none());
    assert!(session_started_notice(b"").is_none());
}

#[test]
fn connection_headers_carry_credentials_and_session() {
    let config = RuntimeConfig::new_from_keys("id".to_string(), "access".to_string(), "app".to_string());
    let h = connect_headers("sess-1", &config);
    let expected: Vec<(String, String)> = vec![
        ("X-Api-Resource-Id", "volc.speech.dialog"),
        ("X-Api-Access-Key", "access"),
        ("X-Api-App-Key", "app"),
        ("X-Api-App-ID", "id"),
        ("X-Api-Connect-Id", "sess-1"),
    ]
    .into_iter()
    .map(|(k, v)| (k.to_string(), v.to_string()))
    .collect();
    assert_eq!(h, expected);
}
