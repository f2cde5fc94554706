//! Service constants and the runtime configuration.

use vstd::prelude::*;
use crate::sound::{pcm_format_name, PcmFormat};
use crate::text::str_eq;

verus! {

/// WebSocket address of the dialogue service.
pub const WS_URL: &'static str = "wss://openspeech.bytedance.com/api/v3/realtime/dialogue";

/// Value of the `X-Api-Resource-Id` header.
pub const API_RESOURCE_ID: &'static str = "volc.speech.dialog";

/// Sample rate of the captured microphone audio.
pub const INPUT_SAMPLE_RATE: u32 = 16000;

/// Sample rate of the synthesized speech.
pub const OUTPUT_SAMPLE_RATE: u32 = 24000;

/// Mono audio.
pub const CHANNELS: u16 = 1;

/// Size in bytes of one audio chunk sent to the server (about 20 ms).
pub const AUDIO_CHUNK_SIZE: usize = 640;

/// Interval in milliseconds between two audio chunks when sending in real time.
pub const AUDIO_SEND_INTERVAL_MS: u64 = 20;

/// Size in bytes of a WAV file header.
pub const WAV_HEADER_SIZE: usize = 44;

/// The default TTS speaker.
pub const DEFAULT_SPEAKER: &'static str = "zh_female_vv_jupiter_bigtts";

/// How the user talks to the service.
#[derive(Clone, Copy, Debug, PartialEq, Eq, Structural)]
pub enum InputMode {
    Audio,
    Text,
    KeepAlive,
}

/// The wire name of an input mode.
pub open spec fn input_mode_name(m: InputMode) -> Seq<char> {
    match m {
        InputMode::Audio => "audio"@,
        InputMode::Text => "text"@,
        InputMode::KeepAlive => "keep_alive"@,
    }
}

impl InputMode {
    /// The name of this mode as the server expects it.
    pub fn as_str(&self) -> (r: &'static str)
        ensures
            r@ == input_mode_name(*self),
    {
        match self {
            InputMode::Audio => "audio",
            InputMode::Text => "text",
            InputMode::KeepAlive => "keep_alive",
        }
    }
}

/// The input mode whose wire name is `s`, if any.
pub open spec fn input_mode_of_name(s: Seq<char>) -> Option<InputMode> {
    if s == "audio"@ {
        Some(InputMode::Audio)
    } else if s == "text"@ {
        Some(InputMode::Text)
    } else if s == "keep_alive"@ {
        Some(InputMode::KeepAlive)
    } else {
        None
    }
}

impl InputMode {
    /// The input mode named `s`, if `s` is one of `audio`, `text`, `keep_alive`.
    pub fn parse(s: &str) -> (r: Option<InputMode>)
        ensures
            r == input_mode_of_name(s@),
            r matches Some(m) ==> input_mode_name(m) == s@,
            r is None ==> forall|m: InputMode| input_mode_name(m) != s@,
    {
        proof {
            reveal_strlit("audio");
            reveal_strlit("text");
            reveal_strlit("keep_alive");
        }
        if str_eq(s, "audio") {
            Some(InputMode::Audio)
        } else if str_eq(s, "text") {
            Some(InputMode::Text)
        } else if str_eq(s, "keep_alive") {
            Some(InputMode::KeepAlive)
        } else {
            proof {
                assert forall|m: InputMode| input_mode_name(m) != s@ by {
                    match m {
                        InputMode::Audio => {},
                        InputMode::Text => {},
                        InputMode::KeepAlive => {},
                    }
                }
            }
            None
        }
    }
}

/// Credentials and choices of one run of the client.
#[derive(Clone, Debug)]
pub struct RuntimeConfig {
    /// `X-Api-App-ID`
    pub app_id: String,
    /// `X-Api-Access-Key`
    pub access_key: String,
    /// `X-Api-App-Key`
    pub app_key: String,
    /// How the user talks to the service.
    pub mode: InputMode,
    /// Sample format of the synthesized speech.
    pub pcm_format: PcmFormat,
}

impl RuntimeConfig {
    /// A configuration with every field given.
    pub fn new(
        app_id: String,
        access_key: String,
        app_key: String,
        mode: InputMode,
        pcm_format: PcmFormat,
    ) -> (c: RuntimeConfig)
        ensures
            c.app_id@ == app_id@,
            c.access_key@ == access_key@,
            c.app_key@ == app_key@,
            c.mode == mode,
            c.pcm_format == pcm_format,
    {
        RuntimeConfig { app_id, access_key, app_key, mode, pcm_format }
    }

    /// A configuration with the given credentials, audio input and 32-bit
    /// float speech.
    pub fn new_from_keys(app_id: String, access_key: String, app_key: String) -> (c: RuntimeConfig)
        ensures
            c.app_id@ == app_id@,
            c.access_key@ == access_key@,
            c.app_key@ == app_key@,
            c.mode == InputMode::Audio,
            c.pcm_format == PcmFormat::PcmF32le,
    {
        RuntimeConfig {
            app_id,
            access_key,
            app_key,
            mode: InputMode::Audio,
            pcm_format: PcmFormat::PcmF32le,
        }
    }
}

/// The command line of the client.
pub struct Args {
    /// Input mode: `audio`, `text` or `keep_alive`.
    pub mode: String,
    /// Speech format: `pcm` (f32le) or `pcm_s16le`.
    pub format: String,
    /// Application id.
    pub app_id: String,
    /// Access key.
    pub access_key: String,
    /// Application key.
    pub app_key: String,
}

/// The configuration the command line asks for: its credentials, its mode and
/// its speech format; `None` when the mode or the format is not one of the
/// known names.
pub fn new_config_from_args(args: Args) -> (r: Option<RuntimeConfig>)
    ensures
        match r {
            Some(c) => {
                &&& c.app_id@ == args.app_id@
                &&& c.access_key@ == args.access_key@
                &&& c.app_key@ == args.app_key@
                &&& input_mode_name(c.mode) == args.mode@
                &&& pcm_format_name(c.pcm_format) == args.format@
            },
            None => (forall|m: InputMode| input_mode_name(m) != args.mode@) || (forall|f: PcmFormat|
                pcm_format_name(f) != args.format@),
        },
{
    let mode = InputMode::parse(args.mode.as_str());
    let pcm_format = PcmFormat::parse(args.format.as_str());
    match (mode, pcm_format) {
        (Some(mode), Some(pcm_format)) => {
            let mut config = RuntimeConfig::new_from_keys(args.app_id, args.access_key, args.app_key);
            config.mode = mode;
            config.pcm_format = pcm_format;
            Some(config)
        },
        _ => None,
    }
}

/// Different input modes have different names, so a name read back gives
/// the mode it was written for.
pub proof fn lemma_input_mode_names_distinct(a: InputMode, b: InputMode)
    ensures
        input_mode_name(a) == input_mode_name(b) ==> a == b,
{
    reveal_strlit("audio");
    reveal_strlit("text");
    reveal_strlit("keep_alive");
    if input_mode_name(a) == input_mode_name(b) {
        assert(input_mode_name(a).len() == input_mode_name(b).len());
        assert(input_mode_name(a)[0] == input_mode_name(b)[0]);
    }
}

/// Reading back the name of a mode gives the mode.
pub proof fn lemma_input_mode_name_roundtrip(m: InputMode)
    ensures
        input_mode_of_name(input_mode_name(m)) == Some(m),
{
    reveal_strlit("audio");
    reveal_strlit("text");
    reveal_strlit("keep_alive");
    assert("text"@.len() != "audio"@.len());
    assert("keep_alive"@.len() != "audio"@.len());
    assert("keep_alive"@.len() != "text"@.len());
}

} // verus!
