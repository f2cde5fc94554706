//! The decisions of the dialogue service: the headers that open its
//! connection, and what it does with what the server sends back.

use vstd::prelude::*;
use crate::config::{RuntimeConfig, API_RESOURCE_ID};
use crate::protocol::{opt_string_view, Message, MessageView, MsgType};

verus! {

/// What a request of the service is for.
pub enum RequestType {
    Greeting,
    Audio,
}

/// The server started the session and named its dialog.
pub struct StartSessionEvent {
    pub dialog_id: String,
}

/// What an event of a full server message reports.
#[derive(Clone, Copy, Debug, PartialEq, Eq, Structural)]
pub enum ServerEvent {
    /// Event 50: the connection is up.
    ConnectionStarted,
    /// Event 51: the connection could not be set up.
    ConnectionFailed,
    /// Event 52: the connection is over.
    ConnectionFinished,
    /// Event 150: the session started.
    SessionStarted,
    /// Events 152 and 153: the session is over.
    SessionFinished,
    /// Event 359: a round of speech synthesis ended.
    TtsEnded,
    /// Event 450: the first words of the user's speech were recognized.
    AsrInfo,
    /// Event 451: the text of the user's speech.
    AsrResponse,
    /// Any other event.
    Other,
}

/// What the service does with a message from the server.
#[derive(Clone, Copy, Debug, PartialEq, Eq, Structural)]
pub enum ServerAction {
    /// A full server message reporting an event.
    Event(ServerEvent),
    /// Speech to play.
    PlayAudio,
    /// An error the server reports.
    ReportError,
    /// Nothing to do.
    Ignore,
}

/// The event of a full server message; a message without an event counts as event 0.
pub open spec fn server_event(event: Option<u32>) -> ServerEvent {
    let e = match event {
        Some(e) => e,
        None => 0,
    };
    if e == 50 {
        ServerEvent::ConnectionStarted
    } else if e == 51 {
        ServerEvent::ConnectionFailed
    } else if e == 52 {
        ServerEvent::ConnectionFinished
    } else if e == 150 {
        ServerEvent::SessionStarted
    } else if e == 152 || e == 153 {
        ServerEvent::SessionFinished
    } else if e == 359 {
        ServerEvent::TtsEnded
    } else if e == 450 {
        ServerEvent::AsrInfo
    } else if e == 451 {
        ServerEvent::AsrResponse
    } else {
        ServerEvent::Other
    }
}

/// What the service does with message `m`: full server messages report their
/// event, audio messages with a payload are played, error messages are
/// reported, anything else is ignored.
pub open spec fn server_action(m: MessageView) -> ServerAction {
    match m.msg_type {
        MsgType::FullServer => ServerAction::Event(server_event(m.event)),
        MsgType::AudioOnlyServer => if m.payload.len() > 0 {
            ServerAction::PlayAudio
        } else {
            ServerAction::Ignore
        },
        MsgType::Error => ServerAction::ReportError,
        _ => ServerAction::Ignore,
    }
}

/// Classifies an event of a full server message.
pub fn classify_event(event: Option<u32>) -> (e: ServerEvent)
    ensures
        e == server_event(event),
{
    let code = match event {
        Some(e) => e,
        None => 0,
    };
    match code {
        50 => ServerEvent::ConnectionStarted,
        51 => ServerEvent::ConnectionFailed,
        52 => ServerEvent::ConnectionFinished,
        150 => ServerEvent::SessionStarted,
        152 | 153 => ServerEvent::SessionFinished,
        359 => ServerEvent::TtsEnded,
        450 => ServerEvent::AsrInfo,
        451 => ServerEvent::AsrResponse,
        _ => ServerEvent::Other,
    }
}

/// Decides what to do with a message from the server.
pub fn classify_server_message(message: &Message) -> (a: ServerAction)
    ensures
        a == server_action(message@),
{
    match message.msg_type {
        MsgType::FullServer => ServerAction::Event(classify_event(message.event)),
        MsgType::AudioOnlyServer => {
            if message.payload.len() > 0 {
                ServerAction::PlayAudio
            } else {
                ServerAction::Ignore
            }
        },
        MsgType::Error => ServerAction::ReportError,
        _ => ServerAction::Ignore,
    }
}

/// The session-start notice to pass on for the dialog id found in the
/// payload of a SessionStarted message: only a non-empty id is passed on.
pub fn session_started_event(dialog_id: Option<String>) -> (r: Option<StartSessionEvent>)
    ensures
        match dialog_id {
            Some(d) => if d@.len() > 0 {
                r matches Some(ev) && ev.dialog_id@ == d@
            } else {
                r is None
            },
            None => r is None,
        },
{
    match dialog_id {
        Some(d) => {
            if d.as_str().is_empty() {
                None
            } else {
                Some(StartSessionEvent { dialog_id: d })
            }
        },
        None => None,
    }
}

/// The text of a header given as a pair of strings.
pub open spec fn header_view(h: (String, String)) -> (Seq<char>, Seq<char>) {
    (h.0@, h.1@)
}

/// The headers that open the WebSocket of session `session_id` under
/// `config`: the resource, the three credentials, and the session id as the
/// connect id, in this order.
pub open spec fn connect_header_pairs(session_id: Seq<char>, config: RuntimeConfig) -> Seq<
    (Seq<char>, Seq<char>),
> {
    seq![
        ("X-Api-Resource-Id"@, API_RESOURCE_ID@),
        ("X-Api-Access-Key"@, config.access_key@),
        ("X-Api-App-Key"@, config.app_key@),
        ("X-Api-App-ID"@, config.app_id@),
        ("X-Api-Connect-Id"@, session_id),
    ]
}

/// The headers that open the WebSocket of session `session_id` under `config`.
pub fn connect_headers(session_id: &str, config: &RuntimeConfig) -> (h: Vec<(String, String)>)
    ensures
        h@.map_values(|p: (String, String)| header_view(p)) == connect_header_pairs(
            session_id@,
            *config,
        ),
{
    let mut h: Vec<(String, String)> = Vec::new();
    h.push(("X-Api-Resource-Id".to_owned(), API_RESOURCE_ID.to_owned()));
    h.push(("X-Api-Access-Key".to_owned(), config.access_key.as_str().to_owned()));
    h.push(("X-Api-App-Key".to_owned(), config.app_key.as_str().to_owned()));
    h.push(("X-Api-App-ID".to_owned(), config.app_id.as_str().to_owned()));
    h.push(("X-Api-Connect-Id".to_owned(), session_id.to_owned()));
    assert(h@.map_values(|p: (String, String)| header_view(p)) =~= connect_header_pairs(
        session_id@,
        *config,
    ));
    h
}

/// The string that the JSON value in `payload` holds under `key`, as
/// `serde_json` reads it: `None` when the bytes are no JSON, the value is no
/// object, the key is missing, or the value under it is not a string.
pub uninterp spec fn json_str_field(payload: Seq<u8>, key: Seq<char>) -> Option<Seq<char>>;

/// `serde_json::from_slice` into a `serde_json::Value`, then `Value::get` with
/// `key` and `Value::as_str`. The contract names the result, which depends on
/// the bytes and the key alone; what JSON text gives which string is not stated.
#[verifier::external_body]
fn json_str_field_of(payload: &[u8], key: &str) -> (r: Option<String>)
    ensures
        opt_string_view(r) == json_str_field(payload@, key@),
{
    let value: serde_json::Value = match serde_json::from_slice(payload) {
        Ok(v) => v,
        Err(_) => return None,
    };
    value.get(key).and_then(serde_json::Value::as_str).map(str::to_owned)
}

/// The session-start notice for the payload of a SessionStarted message: the
/// dialog id that the JSON payload holds under `dialog_id`, when it is a
/// non-empty string; no notice otherwise.
pub fn session_started_notice(payload: &[u8]) -> (r: Option<StartSessionEvent>)
    ensures
        match json_str_field(payload@, "dialog_id"@) {
            Some(d) => if d.len() > 0 {
                r matches Some(ev) && ev.dialog_id@ == d
            } else {
                r is None
            },
            None => r is None,
        },
{
    session_started_event(json_str_field_of(payload, "dialog_id"))
}

/// Which event numbers a full server message reports as what: 50, 51 and 52
/// are the connection started, failed and finished; 150 the session started;
/// 152 and 153 the session finished; 359 (and no other) the end of a round of
/// speech synthesis; 450 and 451 the recognition of the user's speech; every
/// other event, and a message without one, is another event.
pub proof fn lemma_server_event_codes(e: u32)
    ensures
        server_event(Some(e)) == ServerEvent::ConnectionStarted <==> e == 50,
        server_event(Some(e)) == ServerEvent::ConnectionFailed <==> e == 51,
        server_event(Some(e)) == ServerEvent::ConnectionFinished <==> e == 52,
        server_event(Some(e)) == ServerEvent::SessionStarted <==> e == 150,
        server_event(Some(e)) == ServerEvent::SessionFinished <==> (e == 152 || e == 153),
        server_event(Some(e)) == ServerEvent::TtsEnded <==> e == 359,
        server_event(Some(e)) == ServerEvent::AsrInfo <==> e == 450,
        server_event(Some(e)) == ServerEvent::AsrResponse <==> e == 451,
        server_event(Some(e)) == ServerEvent::Other <==> !(e == 50 || e == 51 || e == 52 || e == 150
            || e == 152 || e == 153 || e == 359 || e == 450 || e == 451),
        server_event(None) == ServerEvent::Other,
{
}

/// What the service does with a message depends on its type alone, except
/// that a full server message reports its event and an audio message is
/// played only when it has bytes: full server messages are events, audio
/// messages with a payload are played, error messages are reported, and
/// client messages, front-end results, invalid ones and empty audio are
/// ignored.
pub proof fn lemma_server_action_kinds(m: MessageView)
    ensures
        server_action(m) is Event <==> m.msg_type == MsgType::FullServer,
        server_action(m) == ServerAction::PlayAudio <==> (m.msg_type == MsgType::AudioOnlyServer
            && m.payload.len() > 0),
        server_action(m) == ServerAction::ReportError <==> m.msg_type == MsgType::Error,
        m.msg_type == MsgType::FullServer ==> server_action(m) == ServerAction::Event(
            server_event(m.event),
        ),
{
}

} // verus!
