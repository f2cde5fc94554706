//! The payloads of the client's requests, as plain values. Their JSON form is
//! written where they are sent.

use vstd::prelude::*;
use crate::config::{input_mode_name, RuntimeConfig, DEFAULT_SPEAKER, OUTPUT_SAMPLE_RATE};
use crate::sound::{pcm_format_name, PcmFormat};

verus! {

/// Audio settings of the synthesized speech.
#[derive(Clone, Debug)]
pub struct AudioConfig {
    pub channel: u32,
    pub format: String,
    pub sample_rate: u32,
}

impl Default for AudioConfig {
    /// Mono 16-bit speech at the output sample rate.
    fn default() -> (c: AudioConfig)
        ensures
            c.channel == 1,
            c.format@ == pcm_format_name(PcmFormat::PcmS16le),
            c.sample_rate == OUTPUT_SAMPLE_RATE,
    {
        AudioConfig {
            channel: 1,
            format: PcmFormat::PcmS16le.as_str().to_owned(),
            sample_rate: OUTPUT_SAMPLE_RATE,
        }
    }
}

/// Text-to-speech settings.
#[derive(Clone, Debug)]
pub struct TtsPayload {
    pub speaker: String,
    pub audio_config: AudioConfig,
}

impl Default for TtsPayload {
    /// The default speaker with the default audio settings.
    fn default() -> (t: TtsPayload)
        ensures
            t.speaker@ == DEFAULT_SPEAKER@,
            t.audio_config.channel == 1,
            t.audio_config.format@ == pcm_format_name(PcmFormat::PcmS16le),
            t.audio_config.sample_rate == OUTPUT_SAMPLE_RATE,
    {
        TtsPayload { speaker: DEFAULT_SPEAKER.to_owned(), audio_config: AudioConfig::default() }
    }
}

/// The text-to-speech settings a session of `config` starts with: the
/// default ones, in the configured speech format.
pub fn start_session_tts(config: &RuntimeConfig) -> (t: TtsPayload)
    ensures
        t.speaker@ == DEFAULT_SPEAKER@,
        t.audio_config.channel == 1,
        t.audio_config.format@ == pcm_format_name(config.pcm_format),
        t.audio_config.sample_rate == OUTPUT_SAMPLE_RATE,
{
    let mut tts = TtsPayload::default();
    tts.audio_config.format = config.pcm_format.as_str().to_owned();
    tts
}

/// The greeting the assistant says when a session starts.
#[derive(Clone, Debug)]
pub struct SayHelloPayload {
    pub content: String,
}

/// The words of the greeting.
pub const GREETING: &'static str = "你好，我是豆包，有什么可以帮助你的吗？";

impl SayHelloPayload {
    /// The greeting sent at the start of a session.
    pub fn greeting() -> (p: SayHelloPayload)
        ensures
            p.content@ == GREETING@,
    {
        SayHelloPayload { content: GREETING.to_owned() }
    }
}

/// A text question of the user.
#[derive(Clone, Debug)]
pub struct ChatTextQueryPayload {
    pub content: String,
}

/// Text for the assistant to speak, in pieces.
#[derive(Clone, Debug)]
pub struct ChatTtsTextPayload {
    pub start: bool,
    pub end: bool,
    pub content: String,
}

/// External knowledge for the assistant's answer.
#[derive(Clone, Debug)]
pub struct ChatRagTextPayload {
    pub external_rag: String,
}

/// A scalar JSON value of the dialog's extra settings.
#[derive(Clone, Debug)]
pub enum ExtraValue {
    Bool(bool),
    Str(String),
}

/// The reply the assistant gives to a question it may not answer.
pub const AUDIT_RESPONSE: &'static str = "抱歉这个问题我无法回答，你可以换个其他话题，我会尽力为你提供帮助。";

/// The value of an extra setting.
pub enum ExtraValueView {
    Bool(bool),
    Str(Seq<char>),
}

/// The value of an extra setting as the specification sees it.
pub open spec fn extra_view(e: (String, ExtraValue)) -> (Seq<char>, ExtraValueView) {
    (
        e.0@,
        match e.1 {
            ExtraValue::Bool(b) => ExtraValueView::Bool(b),
            ExtraValue::Str(s) => ExtraValueView::Str(s@),
        },
    )
}

/// The dialog's extra settings for the input mode `input_mod`: no strict
/// audit, the audit reply, the input mode, and model `O`.
pub open spec fn extra_settings(input_mod: Seq<char>) -> Seq<(Seq<char>, ExtraValueView)> {
    seq![
        ("strict_audit"@, ExtraValueView::Bool(false)),
        ("audit_response"@, ExtraValueView::Str(AUDIT_RESPONSE@)),
        ("input_mod"@, ExtraValueView::Str(input_mod)),
        ("model"@, ExtraValueView::Str("O"@)),
    ]
}

/// The dialog's extra settings for the input mode `input_mod`, as key and
/// value pairs with distinct keys.
pub fn create_extra_map(input_mod: &str) -> (extra: Vec<(String, ExtraValue)>)
    ensures
        extra@.map_values(|e: (String, ExtraValue)| extra_view(e)) == extra_settings(input_mod@),
        forall|i: int, j: int|
            0 <= i < j < extra@.len() ==> #[trigger] extra@[i].0@ != #[trigger] extra@[j].0@,
{
    proof {
        reveal_strlit("strict_audit");
        reveal_strlit("audit_response");
        reveal_strlit("input_mod");
        reveal_strlit("model");
    }
    let mut extra: Vec<(String, ExtraValue)> = Vec::new();
    extra.push(("strict_audit".to_owned(), ExtraValue::Bool(false)));
    extra.push(("audit_response".to_owned(), ExtraValue::Str(AUDIT_RESPONSE.to_owned())));
    extra.push(("input_mod".to_owned(), ExtraValue::Str(input_mod.to_owned())));
    extra.push(("model".to_owned(), ExtraValue::Str("O".to_owned())));
    assert(extra@.map_values(|e: (String, ExtraValue)| extra_view(e)) =~= extra_settings(input_mod@));
    assert forall|i: int, j: int|
        0 <= i < j < extra@.len() implies #[trigger] extra@[i].0@ != #[trigger] extra@[j].0@ by {
        assert(extra@[0].0@.len() == 12);
        assert(extra@[1].0@.len() == 14);
        assert(extra@[2].0@.len() == 9);
        assert(extra@[3].0@.len() == 5);
        assert(extra@[i].0@.len() != extra@[j].0@.len());
    }
    extra
}

/// The extra settings a session of `config` starts with: those of its input mode.
pub fn start_session_extra(config: &RuntimeConfig) -> (extra: Vec<(String, ExtraValue)>)
    ensures
        extra@.map_values(|e: (String, ExtraValue)| extra_view(e)) == extra_settings(
            input_mode_name(config.mode),
        ),
        forall|i: int, j: int|
            0 <= i < j < extra@.len() ==> #[trigger] extra@[i].0@ != #[trigger] extra@[j].0@,
{
    create_extra_map(config.mode.as_str())
}

/// The dialog's extra settings, key by key: strict audit is off, a question
/// the assistant may not answer gets the fixed audit reply (and not, say, the
/// greeting), the input mode is the one given, and the model is `O`.
pub proof fn lemma_extra_settings_values(input_mod: Seq<char>)
    ensures
        extra_settings(input_mod).len() == 4,
        extra_settings(input_mod)[0] == ("strict_audit"@, ExtraValueView::Bool(false)),
        extra_settings(input_mod)[1] == ("audit_response"@, ExtraValueView::Str(
            "抱歉这个问题我无法回答，你可以换个其他话题，我会尽力为你提供帮助。"@,
        )),
        extra_settings(input_mod)[2] == ("input_mod"@, ExtraValueView::Str(input_mod)),
        extra_settings(input_mod)[3] == ("model"@, ExtraValueView::Str("O"@)),
        AUDIT_RESPONSE@ != GREETING@,
{
    reveal_strlit("抱歉这个问题我无法回答，你可以换个其他话题，我会尽力为你提供帮助。");
    reveal_strlit("你好，我是豆包，有什么可以帮助你的吗？");
    assert(AUDIT_RESPONSE@[0] != GREETING@[0]);
}

} // verus!
